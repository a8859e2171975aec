//! Choosing where on a disk the new system goes: which disks hold other
//! systems, which free areas are large enough, and what a disk holds.
use vstd::prelude::*;
use crate::disk_helper::{
    format_size_human, format_size_human_spec, nvme_dev_prefix, nvme_partition_captures,
    nvme_split, path_file_name, remove_end_s, remove_end_s_spec, scsi_dev_prefix,
    scsi_split, scsi_split_defined, try_disk_split_no_dev, disk_split_no_dev,
};
use crate::os::{os_view, os_views, Os};
use crate::parted_parser::{parted_data_views, PartedDataView, PartedResult};
use crate::blueprint::opt_view;
use crate::text::{
    chars_of, parse_u64, parse_u64_spec, push_signed_decimal, signed_decimal_spec, starts_with,
    starts_with_spec, str_eq, string_from,
};

verus! {

/// The disk the user selected, such as `/dev/sdb`.
pub struct TeaPartitionGenerator {
    selected: String,
}

/// A disk that holds another system, and that system's name.
#[derive(Debug, Clone)]
pub struct OsOnDisk {
    pub name: String,
    pub path: String,
}

/// A free area of the disk; areas are numbered from 1 in disk order.
#[derive(Debug, Clone, Copy)]
pub struct EmptySpace {
    pub number: i32,
    pub start: u64,
    pub end: u64,
}

/// One partition or free area of the disk, as shown to the user.
#[derive(Debug, Clone)]
pub struct ListsAllSpace {
    pub index: u32,
    pub partition_name: String,
    pub start: u64,
    pub end: u64,
    pub size_h: String,
    pub fs: Option<String>,
}

/// One entry of `parted -j ... unit s print free`, each field as it
/// reads when it has the expected JSON type, `None` otherwise.
#[derive(Debug, Clone)]
pub struct PartedJsonPartition {
    pub number: Option<i64>,
    pub start: Option<String>,
    pub end: Option<String>,
    pub filesystem: Option<String>,
    pub flags: Option<Vec<String>>,
}

/// The disk of `parted -j ... unit s print free`.
#[derive(Debug, Clone)]
pub struct PartedJsonDisk {
    pub path: Option<String>,
    pub physical_sector_size: Option<i64>,
    pub partitions: Option<Vec<PartedJsonPartition>>,
}

/// A partition's number and the sectors it covers.
#[derive(Debug, Clone, Copy)]
pub struct PartitionSpan {
    pub partition_num: i64,
    pub start: u64,
    pub end: u64,
}


/// The disk that the partition path `path` of an `os-prober` entry lies
/// on: the first capture of the NVMe pattern for `/dev/nvme...` paths, the
/// path without its last character for `/dev/sd...` paths, nothing for
/// other paths.
pub open spec fn disk_of_os_path(path: Seq<char>) -> Option<Seq<char>> {
    if starts_with_spec(path, nvme_dev_prefix()) {
        match nvme_partition_captures(path) {
            Some(c) => Some(c.0),
            None => None,
        }
    } else if starts_with_spec(path, scsi_dev_prefix()) {
        Some(path.drop_last())
    } else {
        None
    }
}

/// Whether the disk of every path in `oses` can be found without cutting a
/// character in two.
pub open spec fn os_paths_splittable(oses: Seq<Os>) -> bool {
    forall|i: int| 0 <= i < oses.len() ==> scsi_split_defined((#[trigger] oses[i]).path@)
}

/// The disks and names of the systems in `oses` whose disk is known, in
/// order.
pub open spec fn os_on_disks(oses: Seq<(Seq<char>, Seq<char>)>) -> Seq<(Seq<char>, Seq<char>)>
    decreases oses.len(),
{
    if oses.len() == 0 {
        Seq::empty()
    } else {
        let prev = os_on_disks(oses.drop_last());
        match disk_of_os_path(oses.last().0) {
            Some(d) => prev.push((d, oses.last().1)),
            None => prev,
        }
    }
}

pub open spec fn os_on_disk_views(v: Seq<OsOnDisk>) -> Seq<(Seq<char>, Seq<char>)> {
    v.map_values(|o: OsOnDisk| (o.path@, o.name@))
}

pub open spec fn free_text() -> Seq<char> {
    seq!['f', 'r', 'e', 'e']
}

/// 7 GiB, the smallest free area worth offering.
pub open spec fn min_free_bytes() -> nat {
    7516192768
}

/// A free area of more than 7 GiB on a disk with logical sectors of
/// `ss` bytes.
pub open spec fn large_free_area(d: PartedDataView, ss: u32) -> bool {
    (ss as nat) * (d.size as nat) > min_free_bytes() && d.fs == free_text()
}

/// The first large free area, with a start before sector 2048 moved to
/// sector 2049; `(0, 0)` when there is none.
pub open spec fn first_large_free_area(data: Seq<PartedDataView>, ss: u32) -> (u64, u64)
    decreases data.len(),
{
    if data.len() == 0 {
        (0, 0)
    } else if large_free_area(data[0], ss) {
        (if data[0].start < 2048 {
            2049
        } else {
            data[0].start
        }, data[0].end)
    } else {
        first_large_free_area(data.drop_first(), ss)
    }
}

/// Whether the byte size of every area that is examined fits in a `u64`:
/// every area up to the first large free one.
pub open spec fn sizes_fit_until_found(data: Seq<PartedDataView>, ss: u32) -> bool {
    forall|j: int|
        0 <= j < data.len() && (forall|i: int| 0 <= i < j ==> !large_free_area(#[trigger] data[i], ss))
            ==> (ss as nat) * ((#[trigger] data[j]).size as nat) <= u64::MAX
}

/// Whether the byte size of every area fits in a `u64`.
pub open spec fn sizes_fit(data: Seq<PartedDataView>, ss: u32) -> bool {
    forall|j: int| 0 <= j < data.len() ==> (ss as nat) * ((#[trigger] data[j]).size as nat) <= u64::MAX
}

/// The start and end of every large free area, in order.
pub open spec fn large_free_areas(data: Seq<PartedDataView>, ss: u32) -> Seq<(u64, u64)>
    decreases data.len(),
{
    if data.len() == 0 {
        Seq::empty()
    } else {
        let prev = large_free_areas(data.drop_last(), ss);
        if large_free_area(data.last(), ss) {
            prev.push((data.last().start, data.last().end))
        } else {
            prev
        }
    }
}

pub struct ListsAllSpaceView {
    pub index: u32,
    pub partition_name: Seq<char>,
    pub start: u64,
    pub end: u64,
    pub size_h: Seq<char>,
    pub fs: Option<Seq<char>>,
}

impl View for ListsAllSpace {
    type V = ListsAllSpaceView;

    open spec fn view(&self) -> ListsAllSpaceView {
        ListsAllSpaceView {
            index: self.index,
            partition_name: self.partition_name@,
            start: self.start,
            end: self.end,
            size_h: self.size_h@,
            fs: opt_view(self.fs),
        }
    }
}

/// A sector position such as `2048s` read as a number.
pub open spec fn sector_of(s: Option<String>) -> Option<u64> {
    match s {
        Some(t) => parse_u64_spec(remove_end_s_spec(t@)),
        None => None,
    }
}

/// Whether the entry `p` can be listed: it has a number, both ends read
/// as numbers, does not end before it starts, and its size in bytes fits
/// in a `u64`.
pub open spec fn space_entry_defined(p: PartedJsonPartition, ss: u64) -> bool {
    &&& p.number is Some
    &&& sector_of(p.start) is Some
    &&& sector_of(p.end) is Some
    &&& sector_of(p.start)->0 <= sector_of(p.end)->0
    &&& (sector_of(p.end)->0 - sector_of(p.start)->0) * (ss as nat) <= u64::MAX
}

pub open spec fn unallocated_name() -> Seq<char> {
    "Unallocated"@
}

pub open spec fn unallocated_fs() -> Seq<char> {
    "UNALLOCATED"@
}

/// How the entry `p` of the disk named `disk_name` is shown: named after
/// the disk and its number (`Unallocated` for number 0), with its size in
/// human form and its file system (`UNALLOCATED` without one).
pub open spec fn space_entry_spec(p: PartedJsonPartition, disk_name: Seq<char>, ss: u64) -> ListsAllSpaceView {
    let start = sector_of(p.start)->0;
    let end = sector_of(p.end)->0;
    ListsAllSpaceView {
        index: 0,
        partition_name: if p.number->0 == 0 {
            unallocated_name()
        } else {
            disk_name + signed_decimal_spec(p.number->0 as int)
        },
        start,
        end,
        size_h: format_size_human_spec(((end - start) * (ss as nat)) as nat),
        fs: Some(
            match p.filesystem {
                Some(f) => f@,
                None => unallocated_fs(),
            },
        ),
    }
}

/// The sector size that a listing uses: the physical one, as `u64`.
pub open spec fn listing_sector_size(disk: PartedJsonDisk) -> u64 {
    disk.physical_sector_size->0 as u64
}

/// Whether the disk description can be listed: it has a path with a last
/// component, a sector size and a list of entries that can be listed.
pub open spec fn listing_defined(disk: PartedJsonDisk) -> bool {
    &&& disk.path is Some
    &&& path_file_name(disk.path->0@) is Some
    &&& disk.physical_sector_size is Some
    &&& disk.partitions is Some
    &&& forall|i: int|
        0 <= i < disk.partitions->0@.len() ==> space_entry_defined(
            #[trigger] disk.partitions->0@[i],
            listing_sector_size(disk),
        )
}

pub open spec fn listing_views(v: Seq<ListsAllSpace>) -> Seq<ListsAllSpaceView> {
    v.map_values(|l: ListsAllSpace| l@)
}

/// Whether every entry has a number and two ends that read as numbers.
pub open spec fn spans_defined(disk: PartedJsonDisk) -> bool {
    &&& disk.partitions is Some
    &&& forall|i: int|
        #![trigger disk.partitions->0@[i]]
        0 <= i < disk.partitions->0@.len() ==> {
            let p = disk.partitions->0@[i];
            p.number is Some && sector_of(p.start) is Some && sector_of(p.end) is Some
        }
}

/// What a partition generator answers about its selected disk. Each
/// question takes what was read from the machine (`os-prober`, `parted`)
/// as an argument; the implementation states its answers in its own
/// contracts.
pub trait PartitionGenerator: Sized {
    fn new(selected: String) -> TeaPartitionGenerator;

    fn has_other_os(&self, other_os: &Option<Vec<Os>>) -> bool
        requires
            other_os matches Some(v) ==> os_paths_splittable(v@),
    ;

    fn disk_list_other_os(other_os: &Option<Vec<Os>>) -> Option<Vec<OsOnDisk>>
        requires
            other_os matches Some(v) ==> os_paths_splittable(v@),
    ;

    fn find_empty_space_sector_area(&self, ret: &PartedResult) -> (u64, u64)
        requires
            sizes_fit_until_found(ret@.data, ret.info.sector_size_logical),
    ;

    fn find_empty_space_sector_areav(&self, ret: &PartedResult) -> Vec<EmptySpace>
        requires
            sizes_fit(ret@.data, ret.info.sector_size_logical),
            ret@.data.len() < i32::MAX,
    ;

    fn find_partition_sector_areav(&self, disk: &PartedJsonDisk) -> Vec<ListsAllSpace>
        requires
            listing_defined(*disk),
    ;
}

impl TeaPartitionGenerator {
    pub closed spec fn selected_spec(&self) -> Seq<char> {
        self.selected@
    }

    pub fn new(selected: String) -> (r: TeaPartitionGenerator)
        ensures
            r.selected_spec() == selected@,
    {
        TeaPartitionGenerator { selected }
    }

    /// The disk the partition path `path` lies on.
    fn disk_of(path: &String) -> (r: Option<String>)
        requires
            scsi_split_defined(path@),
        ensures
            opt_view(r) == disk_of_os_path(path@),
    {
        let v = chars_of(path.as_str());
        proof {
            reveal_strlit("/dev/nvme");
            assert("/dev/nvme"@ =~= nvme_dev_prefix());
            reveal_strlit("/dev/sd");
            assert("/dev/sd"@ =~= scsi_dev_prefix());
        }
        if starts_with(&v, "/dev/nvme") {
            match nvme_split(path.clone()) {
                Some(p) => Some(p.0),
                None => None,
            }
        } else if starts_with(&v, "/dev/sd") {
            scsi_split(path.clone())
        } else {
            None
        }
    }

    /// Whether one of the systems in `data` lies on the selected disk.
    pub fn _os_probe_output_find_other_os(&self, data: &Vec<Os>) -> (r: bool)
        requires
            os_paths_splittable(data@),
        ensures
            r == exists|i: int|
                0 <= i < data@.len() && disk_of_os_path((#[trigger] data@[i]).path@) == Some(
                    self.selected_spec(),
                ),
    {
        let mut found = false;
        let mut i: usize = 0;
        while i < data.len()
            invariant
                i <= data.len(),
                os_paths_splittable(data@),
                found == exists|j: int|
                    0 <= j < i && disk_of_os_path((#[trigger] data@[j]).path@) == Some(
                        self.selected_spec(),
                    ),
            decreases data.len() - i,
        {
            let ghost before = found;
            assert(scsi_split_defined(data@[i as int].path@));
            match Self::disk_of(&data[i].path) {
                Some(d) => {
                    if str_eq(d.as_str(), self.selected.as_str()) {
                        found = true;
                    }
                },
                None => {},
            }
            i = i + 1;
            assert(found == exists|j: int|
                0 <= j < i && disk_of_os_path((#[trigger] data@[j]).path@) == Some(
                    self.selected_spec(),
                )) by {
                if before {
                    let j = choose|j: int|
                        0 <= j < i - 1 && disk_of_os_path((#[trigger] data@[j]).path@) == Some(
                            self.selected_spec(),
                        );
                    assert(0 <= j < i);
                }
            }
        }
        found
    }
}

impl PartitionGenerator for TeaPartitionGenerator {
    fn new(selected: String) -> (r: TeaPartitionGenerator)
        ensures
            r.selected_spec() == selected@,
    {
        TeaPartitionGenerator { selected }
    }

    /// Whether another system lies on the selected disk; `other_os` is
    /// what `os-prober` found (`None` when it found nothing or failed).
    fn has_other_os(&self, other_os: &Option<Vec<Os>>) -> (r: bool)
        ensures
            r == (other_os matches Some(v) && exists|i: int|
                0 <= i < v@.len() && disk_of_os_path((#[trigger] v@[i]).path@) == Some(
                    self.selected_spec(),
                )),
    {
        match other_os {
            Some(data) => self._os_probe_output_find_other_os(data),
            None => false,
        }
    }

    /// The disks that hold the systems in `other_os`, with their names;
    /// `None` when there is none.
    fn disk_list_other_os(other_os: &Option<Vec<Os>>) -> (r: Option<Vec<OsOnDisk>>)
        ensures
            r matches Some(v) ==> other_os matches Some(o) && os_on_disk_views(v@) == os_on_disks(
                os_views(o@),
            ) && v@.len() > 0,
            r is None ==> (other_os is None || os_on_disks(os_views(other_os->0@)).len() == 0),
    {
        let mut buf: Vec<OsOnDisk> = Vec::new();
        match other_os {
            Some(data) => {
                let ghost ov = os_views(data@);
                let mut i: usize = 0;
                assert(ov.take(0) == Seq::<(Seq<char>, Seq<char>)>::empty());
                while i < data.len()
                    invariant
                        i <= data.len(),
                        ov == os_views(data@),
                        os_paths_splittable(data@),
                        os_on_disk_views(buf@) == os_on_disks(ov.take(i as int)),
                    decreases data.len() - i,
                {
                    assert(ov.take(i + 1).drop_last() == ov.take(i as int));
                    assert(ov.take(i + 1).last() == os_view(data@[i as int]));
                    assert(scsi_split_defined(data@[i as int].path@));
                    let ghost before = buf@;
                    match Self::disk_of(&data[i].path) {
                        Some(d) => {
                            let name = data[i].name.clone();
                            buf.push(OsOnDisk { path: d, name });
                            assert(os_on_disk_views(buf@) == os_on_disk_views(before).push(
                                (buf@.last().path@, buf@.last().name@),
                            ));
                        },
                        None => {},
                    }
                    i = i + 1;
                }
                assert(ov.take(data.len() as int) == ov);
            },
            None => {},
        }
        if buf.len() == 0 {
            None
        } else {
            Some(buf)
        }
    }

    /// The first free area of more than 7 GiB in the `parted` listing,
    /// starting no earlier than sector 2049; `(0, 0)` when there is none.
    fn find_empty_space_sector_area(&self, ret: &PartedResult) -> (r: (u64, u64))
        ensures
            r == first_large_free_area(ret@.data, ret.info.sector_size_logical),
    {
        let ghost dv = ret@.data;
        let ss = ret.info.sector_size_logical;
        let data = &ret.data;
        let mut i: usize = 0;
        assert(dv.skip(0) == dv);
        proof {
            reveal_strlit("free");
            assert("free"@ =~= free_text());
        }
        while i < data.len()
            invariant
                i <= data.len(),
                dv == parted_data_views(data@),
                ss == ret.info.sector_size_logical,
                ret@.data == dv,
                sizes_fit_until_found(dv, ss),
                forall|j: int| 0 <= j < i ==> !large_free_area(#[trigger] dv[j], ss),
                first_large_free_area(dv, ss) == first_large_free_area(dv.skip(i as int), ss),
                "free"@ == free_text(),
            decreases data.len() - i,
        {
            assert(dv.skip(i as int).drop_first() == dv.skip(i + 1));
            assert(dv.skip(i as int)[0] == dv[i as int]);
            assert(dv[i as int] == data@[i as int]@);
            let d = &data[i];
            let bytes = (ss as u64) * d.size;
            if bytes > crate::config::MINIMUM_DISK_SIZE * 1024 * 1024 * 1024 && str_eq(
                d.fs.as_str(),
                "free",
            ) {
                let mut start = d.start;
                if start < 2048 {
                    start = 2049;
                }
                return (start, d.end);
            }
            i = i + 1;
        }
        (0, 0)
    }

    /// Every free area of more than 7 GiB in the `parted` listing, in
    /// order, numbered from 1.
    fn find_empty_space_sector_areav(&self, ret: &PartedResult) -> (r: Vec<EmptySpace>)
        ensures
            r@.len() == large_free_areas(ret@.data, ret.info.sector_size_logical).len(),
            forall|i: int|
                0 <= i < r@.len() ==> (#[trigger] r@[i]).number == i + 1 && (r@[i].start, r@[i].end)
                    == large_free_areas(ret@.data, ret.info.sector_size_logical)[i],
    {
        let ghost dv = ret@.data;
        let ss = ret.info.sector_size_logical;
        let data = &ret.data;
        let mut buf: Vec<EmptySpace> = Vec::new();
        let mut n: i32 = 1;
        let mut i: usize = 0;
        proof {
            reveal_strlit("free");
            assert("free"@ =~= free_text());
        }
        assert(dv.take(0) == Seq::<PartedDataView>::empty());
        while i < data.len()
            invariant
                i <= data.len(),
                dv == parted_data_views(data@),
                dv.len() < i32::MAX,
                ss == ret.info.sector_size_logical,
                sizes_fit(dv, ss),
                n == buf@.len() + 1,
                buf@.len() == large_free_areas(dv.take(i as int), ss).len(),
                buf@.len() <= i,
                forall|k: int|
                    0 <= k < buf@.len() ==> (#[trigger] buf@[k]).number == k + 1 && (
                    buf@[k].start,
                    buf@[k].end,
                    ) == large_free_areas(dv.take(i as int), ss)[k],
                "free"@ == free_text(),
            decreases data.len() - i,
        {
            assert(dv.take(i + 1).drop_last() == dv.take(i as int));
            assert(dv.take(i + 1).last() == dv[i as int]);
            assert(dv[i as int] == data@[i as int]@);
            let d = &data[i];
            let bytes = (ss as u64) * d.size;
            if bytes > 7516192768 && str_eq(d.fs.as_str(), "free") {
                buf.push(EmptySpace { number: n, start: d.start, end: d.end });
                n = n + 1;
            }
            i = i + 1;
        }
        assert(dv.take(data.len() as int) == dv);
        buf
    }

    /// The partitions and free areas of the `parted -j` disk description,
    /// as shown to the user.
    fn find_partition_sector_areav(&self, disk: &PartedJsonDisk) -> (r: Vec<ListsAllSpace>)
        ensures
            listing_views(r@) == disk.partitions->0@.map_values(
                |p: PartedJsonPartition|
                    space_entry_spec(p, path_file_name(disk.path->0@)->0, listing_sector_size(*disk)),
            ),
    {
        let path = match &disk.path {
            Some(p) => p.clone(),
            None => String::new(),
        };
        let disk_name = disk_split_no_dev(path);
        let sector_size: u64 = match disk.physical_sector_size {
            Some(s) => s as u64,
            None => 0,
        };
        let empty: Vec<PartedJsonPartition> = Vec::new();
        let parts = match &disk.partitions {
            Some(v) => v,
            None => &empty,
        };
        let ghost expected = disk.partitions->0@.map_values(
            |p: PartedJsonPartition|
                space_entry_spec(p, path_file_name(disk.path->0@)->0, listing_sector_size(*disk)),
        );
        let mut buf: Vec<ListsAllSpace> = Vec::new();
        let mut i: usize = 0;
        while i < parts.len()
            invariant
                i <= parts.len(),
                parts@ == disk.partitions->0@,
                listing_defined(*disk),
                sector_size == listing_sector_size(*disk),
                path_file_name(disk.path->0@) == Some(disk_name@),
                expected == disk.partitions->0@.map_values(
                    |p: PartedJsonPartition|
                        space_entry_spec(p, path_file_name(disk.path->0@)->0, listing_sector_size(*disk)),
                ),
                listing_views(buf@) == expected.take(i as int),
            decreases parts.len() - i,
        {
            let p = &parts[i];
            assert(space_entry_defined(parts@[i as int], sector_size));
            let entry = Self::space_entry(p, &disk_name, sector_size);
            let ghost before = buf@;
            buf.push(entry);
            assert(listing_views(buf@) == listing_views(before).push(entry@));
            i = i + 1;
            assert(listing_views(buf@) =~= expected.take(i as int));
        }
        assert(expected.take(parts.len() as int) =~= expected);
        buf
    }
}

impl TeaPartitionGenerator {

    fn space_entry(p: &PartedJsonPartition, disk_name: &String, sector_size: u64) -> (r: ListsAllSpace)
        requires
            space_entry_defined(*p, sector_size),
        ensures
            r@ == space_entry_spec(*p, disk_name@, sector_size),
    {
        let start_text = match &p.start {
            Some(s) => s.clone(),
            None => String::new(),
        };
        let end_text = match &p.end {
            Some(s) => s.clone(),
            None => String::new(),
        };
        let trimmed_start = chars_of(remove_end_s(start_text).as_str());
        let trimmed_end = chars_of(remove_end_s(end_text).as_str());
        let start = match parse_u64(&trimmed_start) {
            Some(v) => v,
            None => 0,
        };
        let end = match parse_u64(&trimmed_end) {
            Some(v) => v,
            None => 0,
        };
        let fs = match &p.filesystem {
            Some(f) => Some(f.clone()),
            None => Some(string_from("UNALLOCATED")),
        };
        let number = match p.number {
            Some(n) => n,
            None => 0,
        };
        let name = if number != 0 {
            let mut nm = disk_name.clone();
            push_signed_decimal(&mut nm, number);
            nm
        } else {
            string_from("Unallocated")
        };
        ListsAllSpace {
            index: 0,
            partition_name: name,
            start,
            end,
            size_h: format_size_human((end - start) * sector_size),
            fs,
        }
    }

    /// The listing, or `None` when the disk description cannot be listed.
    pub fn try_find_partition_sector_areav(&self, disk: &PartedJsonDisk) -> (r: Option<Vec<ListsAllSpace>>)
        ensures
            r is Some <==> listing_defined(*disk),
            r matches Some(v) ==> listing_views(v@) == disk.partitions->0@.map_values(
                |p: PartedJsonPartition|
                    space_entry_spec(p, path_file_name(disk.path->0@)->0, listing_sector_size(*disk)),
            ),
    {
        let path = match &disk.path {
            Some(p) => p.clone(),
            None => { return None; },
        };
        if try_disk_split_no_dev(path).is_none() {
            return None;
        }
        let sector_size: u64 = match disk.physical_sector_size {
            Some(s) => s as u64,
            None => { return None; },
        };
        let parts = match &disk.partitions {
            Some(v) => v,
            None => { return None; },
        };
        let mut i: usize = 0;
        while i < parts.len()
            invariant
                i <= parts.len(),
                parts@ == disk.partitions->0@,
                sector_size == listing_sector_size(*disk),
                forall|j: int| 0 <= j < i ==> space_entry_defined(#[trigger] parts@[j], sector_size),
            decreases parts.len() - i,
        {
            if !Self::space_entry_defined_exec(&parts[i], sector_size) {
                return None;
            }
            i = i + 1;
        }
        Some(self.find_partition_sector_areav(disk))
    }

    fn space_entry_defined_exec(p: &PartedJsonPartition, sector_size: u64) -> (r: bool)
        ensures
            r == space_entry_defined(*p, sector_size),
    {
        if p.number.is_none() {
            return false;
        }
        let start = match &p.start {
            Some(s) => parse_u64(&chars_of(remove_end_s(s.clone()).as_str())),
            None => None,
        };
        let end = match &p.end {
            Some(s) => parse_u64(&chars_of(remove_end_s(s.clone()).as_str())),
            None => None,
        };
        match (start, end) {
            (Some(s), Some(e)) => {
                if s > e {
                    return false;
                }
                if sector_size == 0 {
                    return true;
                }
                let d = e - s;
                let ok = d <= u64::MAX / sector_size;
                assert(ok <==> d * sector_size <= u64::MAX) by (nonlinear_arith)
                    requires
                        sector_size > 0,
                        ok == (d <= u64::MAX / sector_size),
                {
                    if d <= u64::MAX / sector_size {
                        assert(d * sector_size <= (u64::MAX / sector_size) * sector_size);
                    } else {
                        assert(d >= u64::MAX / sector_size + 1);
                        assert(d * sector_size >= (u64::MAX / sector_size + 1) * sector_size);
                    }
                }
                ok
            },
            _ => false,
        }
    }

    /// The number and sectors of every entry of the `parted -j` disk
    /// description.
    pub fn partition_spans(&self, disk: &PartedJsonDisk) -> (r: Vec<PartitionSpan>)
        requires
            spans_defined(*disk),
        ensures
            r@.len() == disk.partitions->0@.len(),
            forall|i: int|
                #![trigger r@[i]]
                0 <= i < r@.len() ==> r@[i].partition_num == disk.partitions->0@[i].number->0
                    && r@[i].start == sector_of(disk.partitions->0@[i].start)->0 && r@[i].end
                    == sector_of(disk.partitions->0@[i].end)->0,
    {
        let empty: Vec<PartedJsonPartition> = Vec::new();
        let parts = match &disk.partitions {
            Some(v) => v,
            None => &empty,
        };
        let mut spans: Vec<PartitionSpan> = Vec::new();
        let mut i: usize = 0;
        while i < parts.len()
            invariant
                i <= parts.len(),
                parts@ == disk.partitions->0@,
                spans_defined(*disk),
                spans@.len() == i,
                forall|k: int|
                    #![trigger spans@[k]]
                    0 <= k < i ==> spans@[k].partition_num == parts@[k].number->0 && spans@[k].start
                        == sector_of(parts@[k].start)->0 && spans@[k].end == sector_of(
                        parts@[k].end,
                    )->0,
            decreases parts.len() - i,
        {
            let p = &parts[i];
            assert(p.number is Some && sector_of(p.start) is Some && sector_of(p.end) is Some);
            let start = match &p.start {
                Some(s) => parse_u64(&chars_of(remove_end_s(s.clone()).as_str())),
                None => None,
            };
            let end = match &p.end {
                Some(s) => parse_u64(&chars_of(remove_end_s(s.clone()).as_str())),
                None => None,
            };
            spans.push(
                PartitionSpan {
                    partition_num: match p.number {
                        Some(n) => n,
                        None => 0,
                    },
                    start: match start {
                        Some(v) => v,
                        None => 0,
                    },
                    end: match end {
                        Some(v) => v,
                        None => 0,
                    },
                },
            );
            i = i + 1;
        }
        spans
    }
}

/// A free area's start as the single area function reports it.
pub open spec fn padded_start(start: u64) -> u64 {
    if start < 2048 {
        2049
    } else {
        start
    }
}

proof fn lemma_first_area_push(prefix: Seq<PartedDataView>, x: PartedDataView, ss: u32)
    ensures
        first_large_free_area(prefix.push(x), ss) == (if large_free_areas(prefix, ss).len() > 0 {
            first_large_free_area(prefix, ss)
        } else if large_free_area(x, ss) {
            (padded_start(x.start), x.end)
        } else {
            (0u64, 0u64)
        }),
        large_free_areas(prefix, ss).len() == 0 ==> first_large_free_area(prefix, ss) == (0u64, 0u64),
    decreases prefix.len(),
{
    if prefix.len() == 0 {
        assert(prefix.push(x)[0] == x);
        assert(prefix.push(x).drop_first() =~= Seq::<PartedDataView>::empty());
        assert(large_free_areas(prefix, ss).len() == 0);
        if large_free_area(x, ss) {
            assert(first_large_free_area(prefix.push(x), ss) == (padded_start(x.start), x.end));
        } else {
            assert(first_large_free_area(prefix.push(x), ss) == first_large_free_area(Seq::<PartedDataView>::empty(), ss));
            assert(first_large_free_area(prefix.push(x), ss) == (0u64, 0u64));
        }
    } else {
        let rest = prefix.drop_first();
        assert(prefix.push(x).drop_first() == rest.push(x));
        assert(prefix.push(x)[0] == prefix[0]);
        lemma_first_area_push(rest, x, ss);
        lemma_areas_front(prefix, ss);
        if large_free_area(prefix[0], ss) {
            assert(large_free_areas(prefix, ss).len() > 0);
            assert(first_large_free_area(prefix, ss) == (padded_start(prefix[0].start), prefix[0].end));
        } else {
            assert(large_free_areas(prefix, ss) =~= large_free_areas(rest, ss));
            assert(first_large_free_area(prefix, ss) == first_large_free_area(rest, ss));
            assert(first_large_free_area(prefix.push(x), ss) == first_large_free_area(rest.push(x), ss));
        }
    }
}

/// The large free areas of a listing are those of its first entry followed
/// by those of the rest.
proof fn lemma_areas_front(data: Seq<PartedDataView>, ss: u32)
    requires
        data.len() > 0,
    ensures
        large_free_areas(data, ss) == (if large_free_area(data[0], ss) {
            seq![(data[0].start, data[0].end)]
        } else {
            Seq::<(u64, u64)>::empty()
        }) + large_free_areas(data.drop_first(), ss),
    decreases data.len(),
{
    if data.len() == 1 {
        assert(data.drop_first() =~= Seq::<PartedDataView>::empty());
        assert(data.drop_last() =~= Seq::<PartedDataView>::empty());
    } else {
        lemma_areas_front(data.drop_last(), ss);
        assert(data.drop_last().drop_first() == data.drop_first().drop_last());
        assert(data.drop_first().last() == data.last());
        assert(data.drop_last()[0] == data[0]);
    }
}

/// The single area that `find_empty_space_sector_area` offers is the
/// first of the areas that `find_empty_space_sector_areav` lists, with an
/// early start moved to sector 2049, and `(0, 0)` exactly when that list
/// is empty.
pub proof fn law_first_area_is_first_listed(data: Seq<PartedDataView>, ss: u32)
    ensures
        large_free_areas(data, ss).len() == 0 ==> first_large_free_area(data, ss) == (0u64, 0u64),
        large_free_areas(data, ss).len() > 0 ==> first_large_free_area(data, ss) == (
            padded_start(large_free_areas(data, ss)[0].0),
            large_free_areas(data, ss)[0].1,
        ),
    decreases data.len(),
{
    if data.len() > 0 {
        let prefix = data.drop_last();
        law_first_area_is_first_listed(prefix, ss);
        lemma_first_area_push(prefix, data.last(), ss);
        assert(prefix.push(data.last()) == data);
    }
}

/// Every area of the numbered list is a free area of more than 7 GiB of
/// the listing.
pub proof fn law_listed_areas_are_large_free(data: Seq<PartedDataView>, ss: u32, k: int)
    requires
        0 <= k < large_free_areas(data, ss).len(),
    ensures
        exists|j: int|
            0 <= j < data.len() && large_free_area(#[trigger] data[j], ss) && (data[j].start, data[j].end)
                == large_free_areas(data, ss)[k],
    decreases data.len(),
{
    let prev = large_free_areas(data.drop_last(), ss);
    if k < prev.len() {
        law_listed_areas_are_large_free(data.drop_last(), ss, k);
        let j = choose|j: int|
            0 <= j < data.drop_last().len() && large_free_area(#[trigger] data.drop_last()[j], ss)
                && (data.drop_last()[j].start, data.drop_last()[j].end) == prev[k];
        assert(data[j] == data.drop_last()[j]);
    } else {
        assert(data[data.len() - 1] == data.last());
    }
}

/// Whether the area `d` is free and holds more than
/// `MINIMUM_DISK_SIZE` GiB: its sector count times the logical sector
/// size `ss` of the disk, in bytes.
pub open spec fn free_and_over_minimum(d: PartedDataView, ss: u32) -> bool {
    &&& d.fs == seq!['f', 'r', 'e', 'e']
    &&& d.size as nat * ss as nat > crate::config::MINIMUM_DISK_SIZE as nat * 1024 * 1024 * 1024
}

/// The areas offered are exactly the free areas whose size in bytes (the
/// sector count times the disk's logical sector size) is more than
/// `MINIMUM_DISK_SIZE` GiB: each such area is listed, each listed area is
/// one, and a single area is offered exactly when there is one.
pub proof fn law_areas_are_those_over_minimum_bytes(data: Seq<PartedDataView>, ss: u32)
    ensures
        forall|j: int|
            0 <= j < data.len() && free_and_over_minimum(#[trigger] data[j], ss)
                ==> large_free_areas(data, ss).contains((data[j].start, data[j].end)),
        forall|k: int|
            #![trigger large_free_areas(data, ss)[k]]
            0 <= k < large_free_areas(data, ss).len() ==> exists|j: int|
                0 <= j < data.len() && free_and_over_minimum(#[trigger] data[j], ss) && (
                data[j].start,
                data[j].end,
                ) == large_free_areas(data, ss)[k],
        (exists|j: int| 0 <= j < data.len() && free_and_over_minimum(#[trigger] data[j], ss))
            <==> first_large_free_area(data, ss) != (0u64, 0u64),
    decreases data.len(),
{
    assert forall|d: PartedDataView| free_and_over_minimum(d, ss) <==> large_free_area(d, ss) by {
        assert(d.size as nat * ss as nat == ss as nat * d.size as nat) by (nonlinear_arith);
    }
    if data.len() > 0 {
        let prev = data.drop_last();
        law_areas_are_those_over_minimum_bytes(prev, ss);
        let lp = large_free_areas(prev, ss);
        let l = large_free_areas(data, ss);
        assert forall|j: int|
            0 <= j < data.len() && free_and_over_minimum(#[trigger] data[j], ss) implies l.contains(
            (data[j].start, data[j].end),
        ) by {
            if j < data.len() - 1 {
                assert(data[j] == prev[j]);
                let k = choose|k: int| 0 <= k < lp.len() && lp[k] == (prev[j].start, prev[j].end);
                assert(l[k] == lp[k]);
            } else {
                assert(data[j] == data.last());
                assert(l[l.len() - 1] == (data[j].start, data[j].end));
            }
        }
        assert forall|k: int| #![trigger l[k]] 0 <= k < l.len() implies exists|j: int|
            0 <= j < data.len() && free_and_over_minimum(#[trigger] data[j], ss) && (
            data[j].start,
            data[j].end,
            ) == l[k] by {
            law_listed_areas_are_large_free(data, ss, k);
        }
    }
    law_first_area_is_first_listed(data, ss);
    if exists|j: int| 0 <= j < data.len() && free_and_over_minimum(#[trigger] data[j], ss) {
        let j = choose|j: int| 0 <= j < data.len() && free_and_over_minimum(#[trigger] data[j], ss);
        let l = large_free_areas(data, ss);
        assert(l.contains((data[j].start, data[j].end)));
        assert(l.len() > 0);
        assert(padded_start(l[0].0) != 0);
    } else {
        if large_free_areas(data, ss).len() > 0 {
            law_listed_areas_are_large_free(data, ss, 0);
        }
    }
}

/// Whether one of the systems lies on `sel`, according to the disks that
/// `disk_list_other_os` reports.
pub open spec fn listed_on_disk(v: Seq<Os>, sel: Seq<char>) -> bool {
    exists|j: int|
        0 <= j < os_on_disks(os_views(v)).len() && (#[trigger] os_on_disks(os_views(v))[j]).0 == sel
}

/// `has_other_os` answers yes exactly when `disk_list_other_os` lists the
/// selected disk.
pub proof fn law_has_other_os_iff_listed(v: Seq<Os>, sel: Seq<char>)
    ensures
        (exists|i: int| 0 <= i < v.len() && disk_of_os_path((#[trigger] v[i]).path@) == Some(sel))
            <==> listed_on_disk(v, sel),
    decreases v.len(),
{
    if v.len() > 0 {
        let p = v.drop_last();
        law_has_other_os_iff_listed(p, sel);
        assert(os_views(v).drop_last() == os_views(p));
        assert(os_views(v).last() == os_view(v.last()));
        let prev = os_on_disks(os_views(p));
        let cur = os_on_disks(os_views(v));
        if exists|i: int| 0 <= i < v.len() && disk_of_os_path((#[trigger] v[i]).path@) == Some(sel) {
            let i = choose|i: int| 0 <= i < v.len() && disk_of_os_path((#[trigger] v[i]).path@) == Some(sel);
            if i < v.len() - 1 {
                assert(p[i] == v[i]);
                let j = choose|j: int| 0 <= j < prev.len() && (#[trigger] prev[j]).0 == sel;
                assert(cur[j] == prev[j]);
            } else {
                assert(cur[cur.len() - 1].0 == sel);
            }
        }
        if listed_on_disk(v, sel) {
            let j = choose|j: int| 0 <= j < cur.len() && (#[trigger] cur[j]).0 == sel;
            if j < prev.len() {
                assert(cur[j] == prev[j]);
                let i = choose|i: int| 0 <= i < p.len() && disk_of_os_path((#[trigger] p[i]).path@) == Some(sel);
                assert(p[i] == v[i]);
            } else {
                assert(disk_of_os_path(v[v.len() - 1].path@) == Some(sel));
            }
        }
    }
}

impl TeaPartitionGenerator {
    /// Whether the disk of every path in `data` can be found (see
    /// `os_paths_splittable`).
    pub fn os_paths_splittable_exec(data: &Vec<Os>) -> (r: bool)
        ensures
            r == os_paths_splittable(data@),
    {
        let mut i: usize = 0;
        while i < data.len()
            invariant
                i <= data.len(),
                forall|j: int| 0 <= j < i ==> scsi_split_defined((#[trigger] data@[j]).path@),
            decreases data.len() - i,
        {
            let v = chars_of(data[i].path.as_str());
            proof {
                reveal_strlit("/dev/sd");
                assert("/dev/sd"@ =~= scsi_dev_prefix());
            }
            if starts_with(&v, "/dev/sd") {
                let last = v[v.len() - 1];
                if !((last as u32) < 0x80) {
                    return false;
                }
            }
            i = i + 1;
        }
        true
    }

    /// Whether the byte size of every area of the listing fits in a `u64`
    /// (see `sizes_fit`), and the areas can be numbered in an `i32`.
    pub fn sizes_fit_exec(ret: &PartedResult) -> (r: bool)
        ensures
            r == (sizes_fit(ret@.data, ret.info.sector_size_logical) && ret@.data.len() < i32::MAX),
    {
        let ss = ret.info.sector_size_logical;
        let data = &ret.data;
        if data.len() >= 2147483647 {
            return false;
        }
        let mut i: usize = 0;
        while i < data.len()
            invariant
                i <= data.len(),
                ss == ret.info.sector_size_logical,
                parted_data_views(data@) == ret@.data,
                forall|j: int| 0 <= j < i ==> (ss as nat) * ((#[trigger] ret@.data[j]).size as nat) <= u64::MAX,
            decreases data.len() - i,
        {
            assert(ret@.data[i as int] == data@[i as int]@);
            if ss != 0 && data[i].size > u64::MAX / (ss as u64) {
                assert((ss as nat) * (data[i as int].size as nat) > u64::MAX) by (nonlinear_arith)
                    requires
                        ss > 0,
                        data[i as int].size > u64::MAX / (ss as u64),
                {
                    assert(data[i as int].size >= u64::MAX / (ss as u64) + 1);
                    assert((ss as nat) * (data[i as int].size as nat) >= (ss as nat) * ((u64::MAX / (ss as u64)) + 1) as nat);
                }
                return false;
            }
            assert((ss as nat) * (data[i as int].size as nat) <= u64::MAX) by (nonlinear_arith)
                requires
                    ss == 0 || data[i as int].size <= u64::MAX / (ss as u64),
            {
                if ss != 0 {
                    assert((ss as nat) * (data[i as int].size as nat) <= (ss as nat) * ((u64::MAX / (ss as u64)) as nat));
                }
            }
            i = i + 1;
        }
        true
    }

    /// Whether the byte size of every area up to the first large free one
    /// fits in a `u64` (see `sizes_fit_until_found`).
    pub fn sizes_fit_until_found_exec(ret: &PartedResult) -> (r: bool)
        ensures
            r == sizes_fit_until_found(ret@.data, ret.info.sector_size_logical),
    {
        let ghost dv = ret@.data;
        let ss = ret.info.sector_size_logical;
        let data = &ret.data;
        let mut i: usize = 0;
        proof {
            reveal_strlit("free");
            assert("free"@ =~= free_text());
        }
        while i < data.len()
            invariant
                i <= data.len(),
                dv == parted_data_views(data@),
                dv == ret@.data,
                ss == ret.info.sector_size_logical,
                forall|j: int| 0 <= j < i ==> !large_free_area(#[trigger] dv[j], ss),
                forall|j: int| 0 <= j < i ==> (ss as nat) * ((#[trigger] dv[j]).size as nat) <= u64::MAX,
                "free"@ == free_text(),
            decreases data.len() - i,
        {
            assert(dv[i as int] == data@[i as int]@);
            let d = &data[i];
            if ss != 0 && d.size > u64::MAX / (ss as u64) {
                assert((ss as nat) * (d.size as nat) > u64::MAX) by (nonlinear_arith)
                    requires
                        ss > 0,
                        d.size > u64::MAX / (ss as u64),
                {
                    assert(d.size >= u64::MAX / (ss as u64) + 1);
                    assert((ss as nat) * (d.size as nat) >= (ss as nat) * ((u64::MAX / (ss as u64)) + 1) as nat);
                }
                return false;
            }
            assert((ss as nat) * (d.size as nat) <= u64::MAX) by (nonlinear_arith)
                requires
                    ss == 0 || d.size <= u64::MAX / (ss as u64),
            {
                if ss != 0 {
                    assert((ss as nat) * (d.size as nat) <= (ss as nat) * ((u64::MAX / (ss as u64)) as nat));
                }
            }
            let bytes = (ss as u64) * d.size;
            if bytes > 7516192768 && str_eq(d.fs.as_str(), "free") {
                return true;
            }
            i = i + 1;
        }
        true
    }
}

}
