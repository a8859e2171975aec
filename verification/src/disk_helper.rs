//! Small helpers on device names, sector counts and sizes.
use vstd::prelude::*;
use regex::Regex;
use crate::text::{
    chars_of, copy_range, decimal_spec, push_decimal, starts_with, starts_with_spec, string_of,
};

verus! {

/// What the pattern `^(/dev/nvme\d+n\d+)(p\d+)$` of the `regex` crate
/// captures in `s`: the disk and the partition suffix, or `None` when `s`
/// does not match.
pub uninterp spec fn nvme_partition_captures(s: Seq<char>) -> Option<(Seq<char>, Seq<char>)>;

/// Whether `s` is one or more ASCII digits.
pub open spec fn ascii_digits(s: Seq<char>) -> bool {
    s.len() > 0 && forall|i: int| 0 <= i < s.len() ==> '0' <= #[trigger] s[i] && s[i] <= '9'
}

pub open spec fn nvme_dev_prefix() -> Seq<char> {
    seq!['/', 'd', 'e', 'v', '/', 'n', 'v', 'm', 'e']
}

/// `disk` is `/dev/nvme<digits>n<digits>` and `part` is `p<digits>`,
/// every digit an ASCII one.
pub open spec fn ascii_nvme_partition(disk: Seq<char>, part: Seq<char>) -> bool {
    &&& disk.len() > 9
    &&& disk.take(9) == nvme_dev_prefix()
    &&& exists|k: int|
        9 < k < disk.len() - 1 && disk[k] == 'n' && ascii_digits(disk.subrange(9, k))
            && ascii_digits(disk.skip(k + 1))
    &&& part.len() > 1
    &&& part[0] == 'p'
    &&& ascii_digits(part.drop_first())
}

/// Matches `device` against `^(/dev/nvme\d+n\d+)(p\d+)$` with the `regex`
/// crate and returns both capture groups.  The contract claims that the
/// groups are named by `nvme_partition_captures`, that together they are
/// the whole input (the pattern is anchored at both ends and the groups are
/// adjacent) and that an input written with ASCII digits in this shape
/// matches with these groups (`\d` takes every ASCII digit).
#[verifier::external_body]
fn nvme_captures(device: &str) -> (r: Option<(String, String)>)
    ensures
        nvme_partition_captures(device@) == (match r {
            Some(p) => Some((p.0@, p.1@)),
            None => None::<(Seq<char>, Seq<char>)>,
        }),
        r matches Some(p) ==> device@ == p.0@ + p.1@,
        forall|disk: Seq<char>, part: Seq<char>|
            device@ == disk + part && ascii_nvme_partition(disk, part) ==> r is Some
                && (r->0).0@ == disk && (r->0).1@ == part,
{
    let re = Regex::new(r"^(/dev/nvme\d+n\d+)(p\d+)$").unwrap();
    match re.captures(device) {
        Some(caps) => Some(
            (
                caps.get(1).map_or("", |m| m.as_str()).to_string(),
                caps.get(2).map_or("", |m| m.as_str()).to_string(),
            ),
        ),
        None => None,
    }
}

/// Splits an NVMe partition path such as `/dev/nvme0n1p1` into its disk
/// (`/dev/nvme0n1`) and its partition suffix (`p1`).
pub fn nvme_split(device_str: String) -> (r: Option<(String, String)>)
    ensures
        nvme_partition_captures(device_str@) == (match r {
            Some(p) => Some((p.0@, p.1@)),
            None => None::<(Seq<char>, Seq<char>)>,
        }),
        r matches Some(p) ==> device_str@ == p.0@ + p.1@,
        forall|disk: Seq<char>, part: Seq<char>|
            device_str@ == disk + part && ascii_nvme_partition(disk, part) ==> r is Some
                && (r->0).0@ == disk && (r->0).1@ == part,
{
    nvme_captures(device_str.as_str())
}

pub open spec fn scsi_dev_prefix() -> Seq<char> {
    seq!['/', 'd', 'e', 'v', '/', 's', 'd']
}

/// Whether cutting the last byte off `device` leaves a whole string: true
/// unless `device` names a SCSI device and ends in a character longer than
/// one byte.
pub open spec fn scsi_split_defined(device: Seq<char>) -> bool {
    starts_with_spec(device, scsi_dev_prefix()) ==> (device.last() as u32) < 0x80
}

/// The disk of a SCSI partition path: the path without its last character.
pub open spec fn scsi_split_spec(device: Seq<char>) -> Option<Seq<char>> {
    if starts_with_spec(device, scsi_dev_prefix()) {
        Some(device.drop_last())
    } else {
        None
    }
}

/// The disk of a SCSI partition path such as `/dev/sdb3` (`/dev/sdb`): the
/// path without its last character.
pub fn scsi_split(device: String) -> (r: Option<String>)
    requires
        scsi_split_defined(device@),
    ensures
        (match r {
            Some(s) => Some(s@),
            None => None::<Seq<char>>,
        }) == scsi_split_spec(device@),
{
    let v = chars_of(device.as_str());
    if starts_with(&v, "/dev/sd") {
        assert(scsi_dev_prefix() == "/dev/sd"@) by {
            reveal_strlit("/dev/sd");
        }
        let base = copy_range(&v, 0, v.len() - 1);
        Some(string_of(&base))
    } else {
        assert(scsi_dev_prefix() == "/dev/sd"@) by {
            reveal_strlit("/dev/sd");
        }
        None
    }
}

pub open spec fn gib() -> nat {
    1073741824
}

pub open spec fn mib() -> nat {
    1048576
}

/// How many sectors of `sector_size` bytes `x` GiB fill, rounded down;
/// 0 for a sector size of 0.
pub fn gb2sector(x: u64, sector_size: u64) -> (r: u64)
    requires
        sector_size != 0 ==> x * gib() <= u64::MAX,
    ensures
        r == (if sector_size == 0 {
            0
        } else {
            (x as nat * gib()) / (sector_size as nat)
        }),
{
    if sector_size == 0 {
        return 0;
    }
    (x * 1024 * 1024 * 1024) / sector_size
}

/// How many sectors of `sector_size` bytes `x` MiB fill, rounded down;
/// 0 for a sector size of 0.
pub fn mb2sector(x: u64, sector_size: u64) -> (r: u64)
    requires
        sector_size != 0 ==> x * mib() <= u64::MAX,
    ensures
        r == (if sector_size == 0 {
            0
        } else {
            (x as nat * mib()) / (sector_size as nat)
        }),
{
    if sector_size == 0 {
        return 0;
    }
    (x * 1024 * 1024) / sector_size
}

/// Whole MiB in `x` bytes.
pub fn bytes2mb(x: u64) -> (r: u64)
    ensures
        r == x as nat / mib(),
{
    let r = x / 1024 / 1024;
    assert(x / 1024 / 1024 == x / 1048576) by (nonlinear_arith);
    r
}

/// The last component of `path` according to `std::path::Path::file_name`
/// on a Unix target, or `None` when there is none.
pub uninterp spec fn path_file_name(path: Seq<char>) -> Option<Seq<char>>;

/// `path` without its trailing `/` characters.
pub open spec fn trim_end_slashes(path: Seq<char>) -> Seq<char>
    decreases path.len(),
{
    if path.len() > 0 && path.last() == '/' {
        trim_end_slashes(path.drop_last())
    } else {
        path
    }
}

/// `name` is the plain last component of `path`: not empty, without `/`,
/// neither `.` nor `..`, and, once trailing `/` characters are dropped
/// from `path`, either all of it or its end after a `/`.
pub open spec fn plain_last_component(path: Seq<char>, name: Seq<char>) -> bool {
    let p = trim_end_slashes(path);
    &&& name.len() > 0
    &&& !name.contains('/')
    &&& name != seq!['.']
    &&& name != seq!['.', '.']
    &&& (p == name || (p.len() > name.len() && p.skip(p.len() - name.len()) == name && p[p.len()
        - name.len() - 1] == '/'))
}

/// `std::path::Path::file_name` of `path`, as a `String`.  The contract
/// names the result and claims what its documentation shows: a file name
/// is a normal component, so it is not empty and holds no `/`; and for a
/// path that ends in a plain component, perhaps followed by `/`
/// characters (which do not make a component), that component is the
/// file name.  The claim is made for Unix targets, where `/` alone
/// separates components (on Windows `\` would separate them too); the
/// library is for Linux.
#[verifier::external_body]
fn file_name_of(path: &str) -> (r: Option<String>)
    ensures
        path_file_name(path@) == (match r {
            Some(s) => Some(s@),
            None => None::<Seq<char>>,
        }),
        r matches Some(s) ==> s@.len() > 0 && !s@.contains('/'),
        forall|name: Seq<char>| plain_last_component(path@, name) ==> r is Some && r->0@ == name,
{
    std::path::Path::new(path).file_name().and_then(|s| s.to_str()).map(|s| s.to_string())
}

/// The device name of a device path, such as `sdb` for `/dev/sdb` or for
/// `/dev/sdb/`: the last component of the path.
pub fn disk_split_no_dev(input: String) -> (r: String)
    requires
        path_file_name(input@) is Some || exists|name: Seq<char>| plain_last_component(input@, name),
    ensures
        path_file_name(input@) == Some(r@),
        r@.len() > 0 && !r@.contains('/'),
        forall|name: Seq<char>| plain_last_component(input@, name) ==> r@ == name,
{
    match file_name_of(input.as_str()) {
        Some(s) => s,
        None => String::new(),
    }
}

/// The device name of a device path, or `None` when the path has no last
/// component (`/`, or a path ending in `..`).
pub fn try_disk_split_no_dev(input: String) -> (r: Option<String>)
    ensures
        path_file_name(input@) == (match r {
            Some(s) => Some(s@),
            None => None::<Seq<char>>,
        }),
        r matches Some(s) ==> s@.len() > 0 && !s@.contains('/'),
        forall|name: Seq<char>| plain_last_component(input@, name) ==> r is Some && r->0@ == name,
{
    match file_name_of(input.as_str()) {
        Some(_) => Some(disk_split_no_dev(input)),
        None => None,
    }
}

/// `input` without a trailing `s` (the sector unit of `parted`).
pub open spec fn remove_end_s_spec(input: Seq<char>) -> Seq<char> {
    if input.len() > 0 && input.last() == 's' {
        input.drop_last()
    } else {
        input
    }
}

pub fn remove_end_s(input: String) -> (r: String)
    ensures
        r@ == remove_end_s_spec(input@),
{
    let v = chars_of(input.as_str());
    if v.len() > 0 && v[v.len() - 1] == 's' {
        let t = copy_range(&v, 0, v.len() - 1);
        string_of(&t)
    } else {
        input
    }
}

/// A size in bytes as shown to a user: `1M` below one MiB, otherwise the
/// whole GiB followed by `G`, or by `T` from 999 GiB on.
pub open spec fn format_size_human_spec(size: nat) -> Seq<char> {
    if size < mib() {
        seq!['1', 'M']
    } else if size < 999 * gib() {
        decimal_spec(size / gib()).push('G')
    } else {
        decimal_spec(size / gib()).push('T')
    }
}

pub fn format_size_human(size: u64) -> (r: String)
    ensures
        r@ == format_size_human_spec(size as nat),
{
    let mut s = String::new();
    if size < 1024 * 1024 {
        s.push('1');
        s.push('M');
    } else if size < 999 * 1024 * 1024 * 1024 {
        push_decimal(&mut s, size / 1024 / 1024 / 1024);
        assert(size / 1024 / 1024 / 1024 == size / 1073741824) by (nonlinear_arith);
        s.push('G');
    } else {
        push_decimal(&mut s, size / 1024 / 1024 / 1024);
        assert(size / 1024 / 1024 / 1024 == size / 1073741824) by (nonlinear_arith);
        s.push('T');
    }
    s
}

}
