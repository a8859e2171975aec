//! Facts about the running system and the disks: other installed systems,
//! swap sizes, alignment, boot configuration text and partition numbers.
use vstd::prelude::*;
use crate::blueprint::{opt_view, Partition, PartitionView, Storage};
use crate::generator::{PartedJsonPartition, PartitionSpan};
use crate::text::{
    chars_eq, chars_of, copy_range, lowercase, pieces_view, split_chars, split_spec,
    starts_with, starts_with_spec, str_eq, string_from, string_of, to_lowercase,
};
use vstd::string::StringExecFns;

verus! {

/// Whether `c` has the Unicode `White_Space` property (the characters
/// that `char::is_whitespace` accepts and that `\s` matches): tab, line
/// feed, vertical tab, form feed, carriage return, space, next line,
/// no-break space, ogham space mark, the spaces from en quad to hair space,
/// line separator, paragraph separator, narrow no-break space, medium
/// mathematical space and ideographic space.
pub open spec fn white_space(c: char) -> bool {
    let u = c as u32;
    (0x09 <= u && u <= 0x0D) || u == 0x20 || u == 0x85 || u == 0xA0 || u == 0x1680 || (0x2000 <= u
        && u <= 0x200A) || u == 0x2028 || u == 0x2029 || u == 0x202F || u == 0x205F || u == 0x3000
}

/// Whether `c` has the Unicode `White_Space` property.
pub fn is_white_space(c: char) -> (r: bool)
    ensures
        r == white_space(c),
{
    let u = c as u32;
    (0x09 <= u && u <= 0x0D) || u == 0x20 || u == 0x85 || u == 0xA0 || u == 0x1680 || (0x2000 <= u
        && u <= 0x200A) || u == 0x2028 || u == 0x2029 || u == 0x202F || u == 0x205F || u == 0x3000
}

/// A system found by `os-prober`: its name and the partition it is on.
#[derive(Debug, Clone)]
pub struct Os {
    pub name: String,
    pub path: String,
}

/// May stand in the device part of an `os-prober` line.
pub open spec fn device_char(c: char) -> bool {
    !white_space(c) && c != ':' && c != '@'
}

/// The end of the run of device characters of `s` that starts at `i`.
pub open spec fn device_run_end(s: Seq<char>, i: int) -> int
    decreases s.len() - i,
{
    if 0 <= i < s.len() && device_char(s[i]) {
        device_run_end(s, i + 1)
    } else {
        i
    }
}

/// The end of the run of characters other than `:` of `s` from `i`.
pub open spec fn field_run_end(s: Seq<char>, i: int) -> int
    decreases s.len() - i,
{
    if 0 <= i < s.len() && s[i] != ':' {
        field_run_end(s, i + 1)
    } else {
        i
    }
}

pub open spec fn dev_prefix() -> Seq<char> {
    seq!['/', 'd', 'e', 'v', '/']
}

/// The position of the `:` before the system name, when the device is
/// followed either by `:` or by `@`, a non-empty boot path and `:`.
pub open spec fn name_colon(s: Seq<char>, dev_end: int) -> Option<int> {
    if dev_end < s.len() && s[dev_end] == ':' {
        Some(dev_end)
    } else if dev_end < s.len() && s[dev_end] == '@' {
        let e = field_run_end(s, dev_end + 1);
        if e > dev_end + 1 && e < s.len() {
            Some(e)
        } else {
            None
        }
    } else {
        None
    }
}

/// The device and the system name in one line of `os-prober` output,
/// which reads `/dev/<device>[@<boot path>]:<name>:...`: the device has at
/// least one character and no white space, `:` or `@`; the boot path and
/// the name are not empty and hold no `:`; a `:` follows the name.
pub open spec fn os_prober_line_spec(s: Seq<char>) -> Option<(Seq<char>, Seq<char>)> {
    if s.len() < 5 || s.take(5) != dev_prefix() {
        None
    } else {
        let dev_end = device_run_end(s, 5);
        if dev_end == 5 {
            None
        } else {
            match name_colon(s, dev_end) {
                Some(c) => {
                    let name_end = field_run_end(s, c + 1);
                    if name_end > c + 1 && name_end < s.len() {
                        Some((s.take(dev_end), s.subrange(c + 1, name_end)))
                    } else {
                        None
                    }
                },
                None => None,
            }
        }
    }
}

proof fn lemma_device_run_end(s: Seq<char>, i: int)
    requires
        0 <= i <= s.len(),
    ensures
        i <= device_run_end(s, i) <= s.len(),
        forall|j: int| i <= j < device_run_end(s, i) ==> device_char(#[trigger] s[j]),
        device_run_end(s, i) < s.len() ==> !device_char(s[device_run_end(s, i)]),
    decreases s.len() - i,
{
    if i < s.len() && device_char(s[i]) {
        lemma_device_run_end(s, i + 1);
    }
}

proof fn lemma_field_run_end(s: Seq<char>, i: int)
    requires
        0 <= i <= s.len(),
    ensures
        i <= field_run_end(s, i) <= s.len(),
        forall|j: int| i <= j < field_run_end(s, i) ==> #[trigger] s[j] != ':',
        field_run_end(s, i) < s.len() ==> s[field_run_end(s, i)] == ':',
    decreases s.len() - i,
{
    if i < s.len() && s[i] != ':' {
        lemma_field_run_end(s, i + 1);
    }
}

fn device_end(s: &Vec<char>, i: usize) -> (r: usize)
    requires
        i <= s.len(),
    ensures
        r == device_run_end(s@, i as int),
{
    let mut j = i;
    while j < s.len() && !is_white_space(s[j]) && s[j] != ':' && s[j] != '@'
        invariant
            i <= j <= s.len(),
            device_run_end(s@, i as int) == device_run_end(s@, j as int),
        decreases s.len() - j,
    {
        j = j + 1;
    }
    j
}

fn field_end(s: &Vec<char>, i: usize) -> (r: usize)
    requires
        i <= s.len(),
    ensures
        r == field_run_end(s@, i as int),
{
    let mut j = i;
    while j < s.len() && s[j] != ':'
        invariant
            i <= j <= s.len(),
            field_run_end(s@, i as int) == field_run_end(s@, j as int),
        decreases s.len() - j,
    {
        j = j + 1;
    }
    j
}

pub open spec fn os_view(o: Os) -> (Seq<char>, Seq<char>) {
    (o.path@, o.name@)
}

impl Os {
    /// Reads one line of `os-prober` output.
    pub fn parse_os_prober_line(s: &Vec<char>) -> (r: Option<Os>)
        ensures
            (match r {
                Some(o) => Some(os_view(o)),
                None => None::<(Seq<char>, Seq<char>)>,
            }) == os_prober_line_spec(s@),
    {
        if s.len() < 5 || s[0] != '/' || s[1] != 'd' || s[2] != 'e' || s[3] != 'v' || s[4] != '/' {
            proof {
                if s.len() >= 5 {
                    assert(s@.take(5)[0] == s@[0]);
                    assert(s@.take(5)[1] == s@[1]);
                    assert(s@.take(5)[2] == s@[2]);
                    assert(s@.take(5)[3] == s@[3]);
                    assert(s@.take(5)[4] == s@[4]);
                }
            }
            return None;
        }
        assert(s@.take(5) =~= dev_prefix());
        let dev_end = device_end(s, 5);
        if dev_end == 5 {
            return None;
        }
        let colon: usize;
        if dev_end < s.len() && s[dev_end] == ':' {
            colon = dev_end;
        } else if dev_end < s.len() && s[dev_end] == '@' {
            let e = field_end(s, dev_end + 1);
            if e > dev_end + 1 && e < s.len() {
                colon = e;
            } else {
                return None;
            }
        } else {
            return None;
        }
        let name_end = field_end(s, colon + 1);
        if name_end > colon + 1 && name_end < s.len() {
            let path = copy_range(s, 0, dev_end);
            let name = copy_range(s, colon + 1, name_end);
            Some(Os { name: string_of(&name), path: string_of(&path) })
        } else {
            None
        }
    }
}

/// The systems named by the lines `lines`, in order, leaving out lines
/// that do not have the `os-prober` shape.
pub open spec fn os_prober_entries(lines: Seq<Seq<char>>) -> Seq<(Seq<char>, Seq<char>)>
    decreases lines.len(),
{
    if lines.len() == 0 {
        Seq::empty()
    } else {
        let prev = os_prober_entries(lines.drop_last());
        match os_prober_line_spec(lines.last()) {
            Some(e) => prev.push(e),
            None => prev,
        }
    }
}

/// The systems that the `os-prober` output `text` lists (one per line).
pub open spec fn other_os_spec(text: Seq<char>) -> Seq<(Seq<char>, Seq<char>)> {
    os_prober_entries(split_spec(text, '\n'))
}

pub open spec fn os_views(v: Seq<Os>) -> Seq<(Seq<char>, Seq<char>)> {
    v.map_values(|o: Os| os_view(o))
}

/// `os-prober` output that stands in for a real scan on a development
/// build.
pub fn dev_os_prober_output() -> (r: &'static str)
    ensures
        r@ == "/dev/sdd1@/efi/Microsoft/Boot/bootmgfw.efi:Windows Boot Manager:Windows:efi\n/dev/sdb2@/efi/Microsoft/Boot/bootmgfw.efi:Wondows Boot Manager:Windows:efi\n/dev/nvme0n1p1@/efi/Microsoft/Boot/bootmgfw.efi:Windows Boot Manager:Windows:efi\n/dev/sda1:Windows 10:Winlost:chain"@,
{
    "/dev/sdd1@/efi/Microsoft/Boot/bootmgfw.efi:Windows Boot Manager:Windows:efi\n/dev/sdb2@/efi/Microsoft/Boot/bootmgfw.efi:Wondows Boot Manager:Windows:efi\n/dev/nvme0n1p1@/efi/Microsoft/Boot/bootmgfw.efi:Windows Boot Manager:Windows:efi\n/dev/sda1:Windows 10:Winlost:chain"
}

impl Os {
    /// The systems listed by the `os-prober` output `prober`, or `None`
    /// when it lists none.
    pub fn get_other_os(prober: &str) -> (r: Option<Vec<Os>>)
        ensures
            other_os_spec(prober@).len() == 0 ==> r is None,
            other_os_spec(prober@).len() > 0 ==> (r matches Some(v) && os_views(v@)
                == other_os_spec(prober@)),
    {
        let chars = chars_of(prober);
        let lines = split_chars(&chars, '\n');
        let ghost lv = pieces_view(lines@);
        let mut oses: Vec<Os> = Vec::new();
        let mut i: usize = 0;
        assert(lv.take(0) == Seq::<Seq<char>>::empty());
        while i < lines.len()
            invariant
                i <= lines.len(),
                lv == pieces_view(lines@),
                lv == split_spec(prober@, '\n'),
                os_views(oses@) == os_prober_entries(lv.take(i as int)),
            decreases lines.len() - i,
        {
            assert(lv.take(i + 1).drop_last() == lv.take(i as int));
            assert(lv.take(i + 1).last() == lines@[i as int]@);
            let ghost before = oses@;
            match Os::parse_os_prober_line(&lines[i]) {
                Some(o) => {
                    oses.push(o);
                    assert(os_views(oses@) == os_views(before).push(os_view(o)));
                },
                None => {},
            }
            i = i + 1;
        }
        assert(lv.take(lines.len() as int) == lv);
        if oses.len() == 0 {
            None
        } else {
            Some(oses)
        }
    }
}

// ---------------------------------------------------------------------------
// Memory and swap.
// ---------------------------------------------------------------------------

/// The RAM of the machine in bytes, as the `sysinfo` crate reports it
/// (`System::total_memory` after refreshing the RAM figures).  It depends
/// on the machine, so nothing is claimed of it.
#[verifier::external_body]
fn total_memory_bytes() -> u64 {
    let sys = sysinfo::System::new_with_specifics(
        sysinfo::RefreshKind::new().with_memory(sysinfo::MemoryRefreshKind::new().with_ram()),
    );
    sys.total_memory()
}

/// The swap size, in MB, suited to `memory` MB of RAM: twice the RAM
/// below 8192, one and a half times it (rounded down) below 16384, the RAM
/// itself below 32768, and half of it from there on.
pub open spec fn ideal_swap_spec(memory: nat) -> nat {
    if memory < 8192 {
        memory * 2
    } else if memory < 16384 {
        memory + memory / 2
    } else if memory < 32768 {
        memory
    } else {
        memory / 2
    }
}

/// The swap size for `memory` MB of RAM: twice the RAM below 2048, the
/// RAM itself from 2048 to 8192, and 8192 above that.
pub open spec fn swap3_spec(memory: nat) -> nat {
    if memory > 8192 {
        8192
    } else if memory >= 2048 {
        memory
    } else {
        memory * 2
    }
}

/// 32 % of the disk size in MB, rounded down.
pub open spec fn swap_limit_spec(disk_bytes: nat) -> nat {
    (disk_bytes / 1048576) * 8 / 25
}

/// The ideal swap size, but no more than 32 % of the disk.
pub open spec fn capped_swap_spec(memory: nat, disk_bytes: nat) -> nat {
    let ideal = ideal_swap_spec(memory);
    let limit = swap_limit_spec(disk_bytes);
    if ideal > limit {
        limit
    } else {
        ideal
    }
}

pub open spec fn max_memory_mb() -> nat {
    (u64::MAX as nat) / 1024000
}

/// `bytes` of memory in MB of 1024000 bytes, rounded down.
pub open spec fn memory_mb_spec(bytes: u64) -> nat {
    bytes as nat / 1024000
}

impl Os {
    /// `bytes` of memory in MB of 1024000 bytes, rounded down: the unit
    /// of every memory figure of the swap rules.
    pub fn memory_mb_of(bytes: u64) -> (r: u64)
        ensures
            r == memory_mb_spec(bytes),
            r <= max_memory_mb(),
    {
        bytes / 1024000
    }

    /// The RAM of the machine in MB (of 1024000 bytes): `memory_mb_of` of
    /// the byte count that `sysinfo` reports.
    pub fn get_total_memory() -> (r: u64)
        ensures
            exists|b: u64| r == #[trigger] memory_mb_spec(b),
            r <= max_memory_mb(),
    {
        Self::memory_mb_of(total_memory_bytes())
    }

    /// The swap size, in MB, suited to `memory` MB of RAM.
    pub fn __gen_mem_ideal_size(memory: u64) -> (r: u64)
        ensures
            r == ideal_swap_spec(memory as nat),
    {
        if memory < 8192 {
            memory * 2
        } else if memory < 16384 {
            memory + memory / 2
        } else if memory < 32768 {
            memory
        } else {
            memory / 2
        }
    }

    /// The swap size, in MB, suited to the RAM of this machine.
    pub fn decide_swap_size() -> (r: u64)
        ensures
            exists|m: nat| m <= max_memory_mb() && r == ideal_swap_spec(m),
    {
        let memory = Self::get_total_memory();
        Self::__gen_mem_ideal_size(memory)
    }

    /// The swap size of the second rule for `memory` MB of RAM.
    pub fn decide_swap_size3_for(memory: u64) -> (r: Option<u64>)
        ensures
            r == Some(swap3_spec(memory as nat) as u64),
            r->0 <= 8192,
    {
        if memory > 8192 {
            Some(8192)
        } else if memory >= 2048 {
            Some(memory)
        } else {
            Some(memory * 2)
        }
    }

    /// The swap size of the second rule for the RAM of this machine.
    pub fn decide_swap_size3() -> (r: Option<u64>)
        ensures
            exists|m: nat| m <= max_memory_mb() && r == Some(swap3_spec(m) as u64),
            r->0 <= 8192,
    {
        let memory = Self::get_total_memory();
        Self::decide_swap_size3_for(memory)
    }

    /// The swap size, in MB, for `memory` MB of RAM and a disk of
    /// `bytes_size` bytes: the ideal size, but no more than 32 % of the disk.
    pub fn decide_swap_size2_bytes_for(memory: u64, bytes_size: u64) -> (r: Option<u64>)
        ensures
            r == Some(capped_swap_spec(memory as nat, bytes_size as nat) as u64),
            r->0 <= swap_limit_spec(bytes_size as nat),
    {
        let ideal_size = Self::__gen_mem_ideal_size(memory);
        let ret_mb = crate::disk_helper::bytes2mb(bytes_size);
        let mem_upper_limit = ret_mb * 8 / 25;
        if ideal_size > mem_upper_limit {
            Some(mem_upper_limit)
        } else {
            Some(ideal_size)
        }
    }

    /// The swap size, in MB, for this machine and a disk of `bytes_size`
    /// bytes.
    pub fn decide_swap_size2_bytes(bytes_size: u64) -> (r: Option<u64>)
        ensures
            exists|m: nat|
                m <= max_memory_mb() && r == Some(capped_swap_spec(m, bytes_size as nat) as u64),
            r->0 <= swap_limit_spec(bytes_size as nat),
    {
        let memory = Self::get_total_memory();
        Self::decide_swap_size2_bytes_for(memory, bytes_size)
    }

    /// `value` rounded up to a multiple of 2048.
    pub fn align_2048(value: u64) -> (r: u64)
        requires
            value + 2047 <= u64::MAX,
        ensures
            r == align_2048_spec(value as nat),
            r % 2048 == 0,
            value <= r < value + 2048,
    {
        let alignment: u64 = 2048;
        let sum: u64 = value + (alignment - 1);
        let mask: u64 = !(alignment - 1);
        let r = sum & mask;
        assert(mask == !2047u64);
        assert(r % 2048 == 0 && value <= r && r < value + 2048) by (bit_vector)
            requires
                sum == value + 2047,
                mask == !2047u64,
                r == sum & mask,
        ;
        proof {
            lemma_align_2048_unique(value as nat, r as nat);
        }
        r
    }
}

/// `value` rounded up to a multiple of 2048.
pub open spec fn align_2048_spec(value: nat) -> nat {
    ((value + 2047) / 2048) * 2048
}

proof fn lemma_align_2048_unique(value: nat, r: nat)
    requires
        r % 2048 == 0,
        value <= r < value + 2048,
    ensures
        r == align_2048_spec(value),
{
    assert(r == align_2048_spec(value)) by (nonlinear_arith)
        requires
            r % 2048 == 0,
            value <= r < value + 2048,
    {
        let q = r / 2048;
        assert(r == q * 2048);
        assert((value + 2047) / 2048 == q);
    }
}

/// Aligning an aligned position leaves it where it is.
pub proof fn law_align_2048_idempotent(value: nat)
    ensures
        align_2048_spec(align_2048_spec(value)) == align_2048_spec(value),
        align_2048_spec(value) % 2048 == 0,
        value <= align_2048_spec(value) < value + 2048,
{
    let a = align_2048_spec(value);
    assert(a % 2048 == 0 && value <= a && a < value + 2048) by (nonlinear_arith)
        requires
            a == ((value + 2047) / 2048) * 2048,
    {
    }
    assert(align_2048_spec(a) == a) by (nonlinear_arith)
        requires
            a % 2048 == 0,
    {
    }
}

// ---------------------------------------------------------------------------
// The swap line of the file system table.
// ---------------------------------------------------------------------------

pub open spec fn swap_fs() -> Seq<char> {
    seq!['l', 'i', 'n', 'u', 'x', '-', 's', 'w', 'a', 'p']
}

/// The position of the first swap partition among `parts`.
pub open spec fn first_swap(parts: Seq<PartitionView>) -> Option<int>
    decreases parts.len(),
{
    if parts.len() == 0 {
        None
    } else if parts[0].filesystem == Some(swap_fs()) {
        Some(0)
    } else {
        match first_swap(parts.drop_first()) {
            Some(i) => Some(i + 1),
            None => None,
        }
    }
}

proof fn lemma_first_swap(parts: Seq<PartitionView>)
    ensures
        first_swap(parts) matches Some(i) ==> 0 <= i < parts.len() && parts[i].filesystem == Some(
            swap_fs(),
        ) && forall|j: int| 0 <= j < i ==> (#[trigger] parts[j]).filesystem != Some(swap_fs()),
        first_swap(parts) is None ==> forall|j: int|
            0 <= j < parts.len() ==> (#[trigger] parts[j]).filesystem != Some(swap_fs()),
    decreases parts.len(),
{
    if parts.len() > 0 {
        lemma_first_swap(parts.drop_first());
        assert forall|j: int| 1 <= j < parts.len() implies parts[j] == parts.drop_first()[j - 1] by {}
    }
}

/// The swap line for `/etc/fstab`, for the first swap partition of the
/// plan; `None` without one.
pub open spec fn fstab_swap_line(data: Option<Seq<PartitionView>>) -> Option<Seq<char>> {
    match data {
        Some(parts) => match first_swap(parts) {
            Some(i) => Some(parts[i].path->0 + " none swap sw 0 0"@),
            None => None,
        },
        None => None,
    }
}

/// Whether the first swap partition of the plan, if any, has a path.
pub open spec fn swap_path_known(data: Option<Seq<PartitionView>>) -> bool {
    data matches Some(parts) ==> (first_swap(parts) matches Some(i) ==> parts[i].path is Some)
}

fn is_swap(p: &Partition) -> (r: bool)
    ensures
        r == (p@.filesystem == Some(swap_fs())),
{
    proof {
        reveal_strlit("linux-swap");
        assert("linux-swap"@ =~= swap_fs());
    }
    match &p.filesystem {
        Some(f) => str_eq(f.as_str(), "linux-swap"),
        None => false,
    }
}

impl Os {
    /// The `/etc/fstab` line that turns on the first swap partition of the
    /// plan.
    pub fn __append_swap_fstab(data: &Storage) -> (r: Option<String>)
        requires
            swap_path_known(data@.partitions),
        ensures
            opt_view(r) == fstab_swap_line(data@.partitions),
    {
        match &data.partitions {
            Some(parts) => {
                let ghost pv = data@.partitions->0;
                proof {
                    lemma_first_swap(pv);
                }
                let mut i: usize = 0;
                while i < parts.len()
                    invariant
                        i <= parts.len(),
                        pv == crate::blueprint::partition_views(parts@),
                        data@.partitions == Some(pv),
                        forall|j: int| 0 <= j < i ==> (#[trigger] pv[j]).filesystem != Some(swap_fs()),
                        first_swap(pv) matches Some(k) ==> (0 <= k < pv.len() && pv[k].filesystem == Some(swap_fs())
                            && (forall|j: int| 0 <= j < k ==> (#[trigger] pv[j]).filesystem != Some(swap_fs()))
                            && pv[k].path is Some),
                        first_swap(pv) is None ==> forall|j: int|
                            0 <= j < pv.len() ==> (#[trigger] pv[j]).filesystem != Some(swap_fs()),
                    decreases parts.len() - i,
                {
                    assert(pv[i as int] == parts@[i as int]@);
                    if is_swap(&parts[i]) {
                        assert(first_swap(pv) == Some(i as int));
                        match &parts[i].path {
                            Some(path) => {
                                let mut line = path.clone();
                                line.append(" none swap sw 0 0");
                                return Some(line);
                            },
                            None => {
                                return None;
                            },
                        }
                    }
                    i = i + 1;
                }
                None
            },
            None => None,
        }
    }
}

// ---------------------------------------------------------------------------
// The boot loader configuration text.
// ---------------------------------------------------------------------------

/// `s` without a trailing carriage return.
pub open spec fn strip_cr(s: Seq<char>) -> Seq<char> {
    if s.len() > 0 && s.last() == '\r' {
        s.drop_last()
    } else {
        s
    }
}

/// The lines of `content` as `str::lines` gives them: split at `\n`, a
/// `\r` before a `\n` belongs to the line ending, and a final line ending
/// does not start another line.
pub open spec fn lines_spec(content: Seq<char>) -> Seq<Seq<char>> {
    let pieces = split_spec(content, '\n');
    let body = if pieces.last().len() == 0 {
        pieces.drop_last()
    } else {
        pieces
    };
    Seq::new(
        body.len(),
        |i: int|
            if i < pieces.len() - 1 {
                strip_cr(body[i])
            } else {
                body[i]
            },
    )
}

/// `s` without its leading white space.
pub open spec fn trim_start_ws(s: Seq<char>) -> Seq<char>
    decreases s.len(),
{
    if s.len() > 0 && white_space(s[0]) {
        trim_start_ws(s.drop_first())
    } else {
        s
    }
}

pub open spec fn grub_key_assign() -> Seq<char> {
    "GRUB_DISABLE_OS_PROBER="@
}

pub open spec fn grub_key_comment() -> Seq<char> {
    "#GRUB_DISABLE_OS_PROBER="@
}

/// Whether `line` sets the key, or is the commented out setting of it.
pub open spec fn is_key_line(line: Seq<char>) -> bool {
    starts_with_spec(trim_start_ws(line), grub_key_assign()) || starts_with_spec(
        trim_start_ws(line),
        grub_key_comment(),
    )
}

/// The position of the first line that sets the key.
pub open spec fn first_key_line(lines: Seq<Seq<char>>) -> Option<int>
    decreases lines.len(),
{
    if lines.len() == 0 {
        None
    } else if is_key_line(lines[0]) {
        Some(0)
    } else {
        match first_key_line(lines.drop_first()) {
            Some(i) => Some(i + 1),
            None => None,
        }
    }
}

pub open spec fn bool_text(b: bool) -> Seq<char> {
    if b {
        seq!['t', 'r', 'u', 'e']
    } else {
        seq!['f', 'a', 'l', 's', 'e']
    }
}

/// The line that sets the key to `val`.
pub open spec fn grub_setting(val: bool) -> Seq<char> {
    grub_key_assign() + bool_text(val)
}

/// The lines with the first key line replaced by the setting, or with the
/// setting added at the end when no line sets the key.
pub open spec fn patched_lines(lines: Seq<Seq<char>>, val: bool) -> Seq<Seq<char>> {
    match first_key_line(lines) {
        Some(i) => lines.update(i, grub_setting(val)),
        None => lines.push(grub_setting(val)),
    }
}

/// The lines joined by `\n`.
pub open spec fn join_lines(lines: Seq<Seq<char>>) -> Seq<char>
    decreases lines.len(),
{
    if lines.len() == 0 {
        Seq::empty()
    } else if lines.len() == 1 {
        lines[0]
    } else {
        join_lines(lines.drop_last()).push('\n') + lines.last()
    }
}

/// The configuration `content` with `GRUB_DISABLE_OS_PROBER` set to `val`,
/// every line ended by `\n`.
pub open spec fn patch_grub_spec(content: Seq<char>, val: bool) -> Seq<char> {
    join_lines(patched_lines(lines_spec(content), val)).push('\n')
}

proof fn lemma_trim_ws_skip(s: Seq<char>, i: int)
    requires
        0 <= i <= s.len(),
        forall|j: int| 0 <= j < i ==> white_space(#[trigger] s[j]),
    ensures
        trim_start_ws(s) == trim_start_ws(s.skip(i)),
    decreases i,
{
    if i > 0 {
        assert(s.drop_first().skip(i - 1) == s.skip(i));
        lemma_trim_ws_skip(s.drop_first(), i - 1);
    } else {
        assert(s.skip(0) == s);
    }
}

fn trim_start_whitespace(s: &Vec<char>) -> (r: Vec<char>)
    ensures
        r@ == trim_start_ws(s@),
{
    let mut i: usize = 0;
    while i < s.len() && is_white_space(s[i])
        invariant
            i <= s.len(),
            forall|j: int| 0 <= j < i ==> white_space(#[trigger] s@[j]),
        decreases s.len() - i,
    {
        i = i + 1;
    }
    proof {
        lemma_trim_ws_skip(s@, i as int);
    }
    copy_range(s, i, s.len())
}

fn is_key_line_exec(line: &Vec<char>) -> (r: bool)
    ensures
        r == is_key_line(line@),
{
    let t = trim_start_whitespace(line);
    starts_with(&t, "GRUB_DISABLE_OS_PROBER=") || starts_with(&t, "#GRUB_DISABLE_OS_PROBER=")
}

fn strip_cr_exec(s: &Vec<char>) -> (r: Vec<char>)
    ensures
        r@ == strip_cr(s@),
{
    if s.len() > 0 && s[s.len() - 1] == '\r' {
        copy_range(s, 0, s.len() - 1)
    } else {
        copy_range(s, 0, s.len())
    }
}

fn lines_of(content: &str) -> (r: Vec<Vec<char>>)
    ensures
        pieces_view(r@) == lines_spec(content@),
{
    let chars = chars_of(content);
    let pieces = split_chars(&chars, '\n');
    let ghost pv = pieces_view(pieces@);
    proof {
        crate::text::lemma_split_nonempty(content@, '\n');
    }
    let n = if pieces[pieces.len() - 1].len() == 0 {
        pieces.len() - 1
    } else {
        pieces.len()
    };
    let mut lines: Vec<Vec<char>> = Vec::new();
    let mut i: usize = 0;
    while i < n
        invariant
            i <= n <= pieces.len(),
            pv == pieces_view(pieces@),
            pv == split_spec(content@, '\n'),
            pv.len() >= 1,
            n == (if pv.last().len() == 0 {
                pv.len() - 1
            } else {
                pv.len() as int
            }),
            pieces_view(lines@) == lines_spec(content@).take(i as int),
        decreases n - i,
    {
        let ghost before = lines@;
        assert(pv[i as int] == pieces@[i as int]@);
        let line = if i < pieces.len() - 1 {
            strip_cr_exec(&pieces[i])
        } else {
            let l = copy_range(&pieces[i], 0, pieces[i].len());
            assert(l@ =~= pieces@[i as int]@);
            l
        };
        assert(line@ == lines_spec(content@)[i as int]);
        lines.push(line);
        assert(pieces_view(lines@) == pieces_view(before).push(line@));
        i = i + 1;
        assert(pieces_view(lines@) =~= lines_spec(content@).take(i as int));
    }
    assert(lines_spec(content@).take(n as int) =~= lines_spec(content@));
    lines
}

proof fn lemma_first_key_line(lines: Seq<Seq<char>>)
    ensures
        first_key_line(lines) matches Some(i) ==> 0 <= i < lines.len() && is_key_line(lines[i])
            && forall|j: int| 0 <= j < i ==> !is_key_line(#[trigger] lines[j]),
        first_key_line(lines) is None ==> forall|j: int|
            0 <= j < lines.len() ==> !is_key_line(#[trigger] lines[j]),
    decreases lines.len(),
{
    if lines.len() > 0 {
        lemma_first_key_line(lines.drop_first());
        assert forall|j: int| 1 <= j < lines.len() implies lines[j] == lines.drop_first()[j - 1] by {}
    }
}

fn setting_line(val: bool) -> (r: Vec<char>)
    ensures
        r@ == grub_setting(val),
{
    let mut s = chars_of("GRUB_DISABLE_OS_PROBER=");
    if val {
        s.push('t');
        s.push('r');
        s.push('u');
        s.push('e');
    } else {
        s.push('f');
        s.push('a');
        s.push('l');
        s.push('s');
        s.push('e');
    }
    s
}

impl Os {
    /// The boot loader configuration `content` with `GRUB_DISABLE_OS_PROBER`
    /// set to `val_nostr`: the first line that sets it (perhaps commented
    /// out) is replaced, or the setting is added at the end.
    pub fn patch_grub_config_text(content: &str, val_nostr: bool) -> (r: String)
        ensures
            r@ == patch_grub_spec(content@, val_nostr),
    {
        let mut lines = lines_of(content);
        let ghost lv = pieces_view(lines@);
        proof {
            lemma_first_key_line(lv);
        }
        let mut found = false;
        let mut i: usize = 0;
        while i < lines.len() && !found
            invariant
                i <= lines.len(),
                lv == lines_spec(content@),
                pieces_view(lines@) == lv,
                found ==> i < lines.len() && is_key_line(lv[i as int]),
                forall|j: int| 0 <= j < i ==> !is_key_line(#[trigger] lv[j]),
                first_key_line(lv) matches Some(k) ==> (0 <= k < lv.len() && is_key_line(lv[k])
                    && forall|j: int| 0 <= j < k ==> !is_key_line(#[trigger] lv[j])),
                first_key_line(lv) is None ==> forall|j: int|
                    0 <= j < lv.len() ==> !is_key_line(#[trigger] lv[j]),
            decreases lines.len() - i + (if found { 0int } else { 1int }),
        {
            assert(lv[i as int] == lines@[i as int]@);
            if is_key_line_exec(&lines[i]) {
                found = true;
            } else {
                i = i + 1;
            }
        }
        let setting = setting_line(val_nostr);
        if found {
            assert(first_key_line(lv) == Some(i as int));
            let ghost before = lines@;
            lines.set(i, setting);
            assert(pieces_view(lines@) =~= lv.update(i as int, grub_setting(val_nostr)));
        } else {
            assert(first_key_line(lv) is None);
            let ghost before = lines@;
            lines.push(setting);
            assert(pieces_view(lines@) =~= lv.push(grub_setting(val_nostr)));
        }
        let ghost pl = pieces_view(lines@);
        assert(pl == patched_lines(lv, val_nostr));
        let mut out = String::new();
        let mut k: usize = 0;
        while k < lines.len()
            invariant
                k <= lines.len(),
                pl == pieces_view(lines@),
                out@ == join_lines(pl.take(k as int)),
            decreases lines.len() - k,
        {
            let ghost before = out@;
            if k > 0 {
                out.push('\n');
            }
            let mut c: usize = 0;
            while c < lines[k].len()
                invariant
                    k < lines.len(),
                    c <= lines@[k as int]@.len(),
                    out@ == (if k > 0 { before.push('\n') } else { before }) + lines@[k as int]@.take(
                        c as int,
                    ),
                decreases lines@[k as int]@.len() - c,
            {
                out.push(lines[k][c]);
                c = c + 1;
                assert(lines@[k as int]@.take(c as int) == lines@[k as int]@.take((c - 1) as int).push(
                    lines@[k as int]@[c - 1],
                ));
            }
            assert(lines@[k as int]@.take(c as int) == lines@[k as int]@);
            assert(pl.take(k + 1).drop_last() == pl.take(k as int));
            assert(pl[k as int] == lines@[k as int]@);
            k = k + 1;
        }
        assert(pl.take(lines.len() as int) == pl);
        out.push('\n');
        out
    }
}

// ---------------------------------------------------------------------------
// Disk model.
// ---------------------------------------------------------------------------

/// One device as `lsblk -J -o NAME,MODEL` lists it.
#[derive(Debug, Clone)]
pub struct LsblkModelDevice {
    pub name: String,
    pub model: Option<String>,
}

/// The output of `lsblk <disk> -J -o NAME,MODEL`.
#[derive(Debug, Clone)]
pub struct LsblkModelOutput {
    pub blockdevices: Vec<LsblkModelDevice>,
}

/// The model of the first listed device, when there is one and it has a
/// model.
pub open spec fn disk_model_spec(devices: Seq<LsblkModelDevice>) -> Option<Seq<char>> {
    if devices.len() > 0 {
        opt_view(devices[0].model)
    } else {
        None
    }
}

impl Os {
    /// The model name of the disk from the `lsblk` listing `parsed` of it:
    /// the model of the first listed device; `None` when there is no
    /// device or it names no model.
    pub fn get_disk_model_in(parsed: &LsblkModelOutput) -> (r: Option<String>)
        ensures
            opt_view(r) == disk_model_spec(parsed.blockdevices@),
    {
        if parsed.blockdevices.len() > 0 {
            match &parsed.blockdevices[0].model {
                Some(m) => Some(m.clone()),
                None => None,
            }
        } else {
            None
        }
    }
}

// ---------------------------------------------------------------------------
// Partition table kind.
// ---------------------------------------------------------------------------

/// One device as `lsblk -J -o NAME,PTTYPE` lists it.
#[derive(Debug, Clone)]
pub struct BlockDevice {
    pub name: String,
    pub pttype: Option<String>,
}

/// The output of `lsblk -J -o NAME,PTTYPE`.
#[derive(Debug, Clone)]
pub struct LsblkOutput {
    pub blockdevices: Vec<BlockDevice>,
}

/// `disk` without a leading `/dev/`.
pub open spec fn device_name_spec(disk: Seq<char>) -> Seq<char> {
    if starts_with_spec(disk, dev_prefix()) {
        disk.skip(5)
    } else {
        disk
    }
}

pub open spec fn dos_text() -> Seq<char> {
    seq!['d', 'o', 's']
}

pub open spec fn mbr_text() -> Seq<char> {
    seq!['m', 'b', 'r']
}

/// The table kind of the first listed device named `name` that has one,
/// with `dos` reported as `mbr`.
pub open spec fn table_kind_spec(devices: Seq<BlockDevice>, name: Seq<char>) -> Option<Seq<char>>
    decreases devices.len(),
{
    if devices.len() == 0 {
        None
    } else if devices[0].name@ == name && devices[0].pttype is Some {
        let t = devices[0].pttype->0@;
        if t == dos_text() {
            Some(mbr_text())
        } else {
            Some(t)
        }
    } else {
        table_kind_spec(devices.drop_first(), name)
    }
}

impl Os {
    /// The partition table kind of `disk` according to the `lsblk` listing
    /// `parsed`: `mbr` for an MS-DOS table, otherwise as `lsblk` names it.
    pub fn detect_partition_table_in(disk: &str, parsed: &LsblkOutput) -> (r: Option<String>)
        ensures
            opt_view(r) == table_kind_spec(parsed.blockdevices@, device_name_spec(disk@)),
    {
        let d = chars_of(disk);
        let is_dev = starts_with(&d, "/dev/");
        proof {
            reveal_strlit("/dev/");
            assert("/dev/"@ =~= dev_prefix());
            reveal_strlit("dos");
            assert("dos"@ =~= dos_text());
        }
        let name = if is_dev {
            copy_range(&d, 5, d.len())
        } else {
            copy_range(&d, 0, d.len())
        };
        assert(name@ =~= device_name_spec(disk@));
        let devs = &parsed.blockdevices;
        let mut i: usize = 0;
        assert(devs@.skip(0) == devs@);
        while i < devs.len()
            invariant
                i <= devs.len(),
                name@ == device_name_spec(disk@),
                devs@ == parsed.blockdevices@,
                table_kind_spec(devs@, name@) == table_kind_spec(devs@.skip(i as int), name@),
            decreases devs.len() - i,
        {
            assert(devs@.skip(i as int).drop_first() == devs@.skip(i + 1));
            assert(devs@.skip(i as int)[0] == devs@[i as int]);
            proof {
                reveal_strlit("dos");
                assert("dos"@ =~= dos_text());
            }
            let dev_name = chars_of(devs[i].name.as_str());
            if chars_eq(&dev_name, &name) {
                if let Some(ptable) = &devs[i].pttype {
                    if str_eq(ptable.as_str(), "dos") {
                        let mut m = String::new();
                        m.push('m');
                        m.push('b');
                        m.push('r');
                        return Some(m);
                    } else {
                        return Some(ptable.clone());
                    }
                }
            }
            i = i + 1;
        }
        None
    }
}

// ---------------------------------------------------------------------------
// Predicting the numbers of new partitions.
// ---------------------------------------------------------------------------

/// One partition number slot: whether it was handed out, and whether a
/// partition that already holds it may be replaced.
#[derive(Debug, Clone, Copy)]
pub struct _InternalDiskNum {
    pub partition: u32,
    pub mark: bool,
    pub ignore: bool,
}

/// Hands out the numbers that new partitions of a disk will get.
#[derive(Debug, Clone)]
pub struct StateDiskPredictor {
    disk: String,
    slot: Vec<_InternalDiskNum>,
}

pub open spec fn slot_view(s: _InternalDiskNum) -> (u32, bool, bool) {
    (s.partition, s.mark, s.ignore)
}

/// The slots of a fresh predictor: numbers 1 to `n`, none handed out or
/// replaceable.
pub open spec fn fresh_slots(n: nat) -> Seq<(u32, bool, bool)> {
    Seq::new(n, |i: int| ((i + 1) as u32, false, false))
}

/// The slots after handing out `k`.
pub open spec fn mark_spec(slots: Seq<(u32, bool, bool)>, k: u32) -> Seq<(u32, bool, bool)> {
    slots.map_values(|s: (u32, bool, bool)| if s.0 == k { (s.0, true, s.2) } else { s })
}

/// The slots after letting a partition that holds `k` be replaced.
pub open spec fn ignore_spec(slots: Seq<(u32, bool, bool)>, k: u32) -> Seq<(u32, bool, bool)> {
    slots.map_values(|s: (u32, bool, bool)| if s.0 == k { (s.0, s.1, true) } else { s })
}

/// Whether a slot may be handed out while the disk holds the partition
/// numbers `used`: it was not handed out yet, and its number is free or
/// may be replaced.
pub open spec fn slot_available(s: (u32, bool, bool), used: Seq<u32>) -> bool {
    !s.1 && (!used.contains(s.0) || s.2)
}

/// The number of the first available slot.
pub open spec fn predict_spec(slots: Seq<(u32, bool, bool)>, used: Seq<u32>) -> Option<u32>
    decreases slots.len(),
{
    if slots.len() == 0 {
        None
    } else if slot_available(slots[0], used) {
        Some(slots[0].0)
    } else {
        predict_spec(slots.drop_first(), used)
    }
}

pub open spec fn mbr_mode() -> Seq<char> {
    seq!['m', 'b', 'r']
}

/// Predicting the numbers that new partitions of a disk will get. What
/// the machine reports (the partition table kind, the numbers in use) is
/// an argument; the implementation states its answers in its own
/// contracts.
pub trait DiskPredictor: Sized {
    fn new(disk: String, mode: Option<String>) -> Result<StateDiskPredictor, String>;

    fn predict_next_disk(&self, partnum: &Result<Vec<u32>, String>) -> Option<u32>;

    fn mark(&mut self, disk_num: u32);

    fn get_disk_num_array(numbers: &Vec<Option<u64>>) -> Vec<u32>;

    fn predict_next_disks_num(&self, partnum: &Result<Vec<u32>, String>) -> Option<u32>;

    fn ignore(&mut self, disk_num: u32);
}

impl StateDiskPredictor {
    pub closed spec fn disk_spec(&self) -> Seq<char> {
        self.disk@
    }

    /// The disk the predictor is for.
    pub fn disk(&self) -> (r: &String)
        ensures
            r@ == self.disk_spec(),
    {
        &self.disk
    }

    pub closed spec fn slots(&self) -> Seq<(u32, bool, bool)> {
        self.slot@.map_values(|s: _InternalDiskNum| slot_view(s))
    }
}

impl DiskPredictor for StateDiskPredictor {
    /// A predictor for `disk`, whose partition table kind is `mode` (as
    /// `detect_partition_table` reports it): 4 slots for MBR, 128
    /// otherwise; an error without a known kind.
    fn new(disk: String, mode: Option<String>) -> (r: Result<StateDiskPredictor, String>)
        ensures
            mode is None ==> (r matches Err(m) && m@
                == "Failed to get mode, disk is not either MBR or GPT"@),
            mode matches Some(m) ==> (r matches Ok(p) && p.disk_spec() == disk@ && p.slots()
                == fresh_slots(if lowercase(m@) == mbr_mode() { 4 } else { 128 })),
    {
        match mode {
            Some(mode_val) => {
                let lower = to_lowercase(mode_val.as_str());
                proof {
                    reveal_strlit("mbr");
                    assert("mbr"@ =~= mbr_mode());
                }
                let n: u32 = if str_eq(lower.as_str(), "mbr") { 4 } else { 128 };
                let mut buf: Vec<_InternalDiskNum> = Vec::new();
                let mut k: u32 = 1;
                while k <= n
                    invariant
                        1 <= k <= n + 1,
                        n <= 128,
                        buf@.map_values(|s: _InternalDiskNum| slot_view(s)) =~= fresh_slots(
                            (k - 1) as nat,
                        ),
                    decreases n + 1 - k,
                {
                    let ghost before = buf@;
                    buf.push(_InternalDiskNum { partition: k, mark: false, ignore: false });
                    assert(buf@.map_values(|s: _InternalDiskNum| slot_view(s)) =~= before.map_values(
                        |s: _InternalDiskNum| slot_view(s),
                    ).push((k, false, false)));
                    k = k + 1;
                }
                Ok(StateDiskPredictor { disk, slot: buf })
            },
            None => Err(string_from("Failed to get mode, disk is not either MBR or GPT")),
        }
    }

    /// Hands out `disk_num`: it is not predicted any more.
    fn mark(&mut self, disk_num: u32)
        ensures
            final(self).slots() == mark_spec(old(self).slots(), disk_num),
            final(self).disk_spec() == old(self).disk_spec(),
    {
        let mut i: usize = 0;
        while i < self.slot.len()
            invariant
                i <= self.slot.len(),
                self.slot@.len() == old(self).slot@.len(),
                self.disk == old(self).disk,
                forall|j: int|
                    0 <= j < self.slot@.len() ==> slot_view(#[trigger] self.slot@[j]) == (if j < i {
                        mark_spec(old(self).slots(), disk_num)[j]
                    } else {
                        old(self).slots()[j]
                    }),
            decreases self.slot.len() - i,
        {
            if self.slot[i].partition == disk_num {
                let mut s = self.slot[i];
                s.mark = true;
                self.slot.set(i, s);
            }
            i = i + 1;
        }
        assert(self.slots() =~= mark_spec(old(self).slots(), disk_num));
    }

    /// Lets a partition that holds `disk_num` be replaced, so that the
    /// number may be predicted although it is in use.
    fn ignore(&mut self, disk_num: u32)
        ensures
            final(self).slots() == ignore_spec(old(self).slots(), disk_num),
            final(self).disk_spec() == old(self).disk_spec(),
    {
        let mut i: usize = 0;
        while i < self.slot.len()
            invariant
                i <= self.slot.len(),
                self.slot@.len() == old(self).slot@.len(),
                self.disk == old(self).disk,
                forall|j: int|
                    0 <= j < self.slot@.len() ==> slot_view(#[trigger] self.slot@[j]) == (if j < i {
                        ignore_spec(old(self).slots(), disk_num)[j]
                    } else {
                        old(self).slots()[j]
                    }),
            decreases self.slot.len() - i,
        {
            if self.slot[i].partition == disk_num {
                let mut s = self.slot[i];
                s.ignore = true;
                self.slot.set(i, s);
            }
            i = i + 1;
        }
        assert(self.slots() =~= ignore_spec(old(self).slots(), disk_num));
    }

    /// The number the next new partition gets, given the partition numbers
    /// the disk holds (or why they could not be read): the first slot not
    /// handed out whose number is free or may be replaced.
    fn predict_next_disks_num(&self, partnum: &Result<Vec<u32>, String>) -> (r: Option<u32>)
        ensures
            r == (match partnum {
                Ok(used) => predict_spec(self.slots(), used@),
                Err(_) => None::<u32>,
            }),
    {
        match partnum {
            Ok(used) => {
                let ghost sv = self.slots();
                let mut i: usize = 0;
                assert(sv.skip(0) == sv);
                while i < self.slot.len()
                    invariant
                        i <= self.slot.len(),
                        sv == self.slots(),
                        partnum matches Ok(u) && u@ == used@,
                        predict_spec(sv, used@) == predict_spec(sv.skip(i as int), used@),
                    decreases self.slot.len() - i,
                {
                    assert(sv.skip(i as int).drop_first() == sv.skip(i + 1));
                    assert(sv.skip(i as int)[0] == slot_view(self.slot@[i as int]));
                    let x = &self.slot[i];
                    let in_use = contains_u32(used, x.partition);
                    if !in_use && x.mark == false {
                        return Some(x.partition);
                    }
                    if in_use && x.ignore == true && x.mark == false {
                        return Some(x.partition);
                    }
                    i = i + 1;
                }
                None
            },
            Err(_) => None,
        }
    }

    /// Same as `predict_next_disks_num`.
    fn predict_next_disk(&self, partnum: &Result<Vec<u32>, String>) -> (r: Option<u32>)
        ensures
            r == (match partnum {
                Ok(used) => predict_spec(self.slots(), used@),
                Err(_) => None::<u32>,
            }),
    {
        self.predict_next_disks_num(partnum)
    }

    /// The partition numbers of the disk from the `number` field of every
    /// entry that `parted -j --script print` lists (`None` where it is not
    /// an unsigned integer).
    fn get_disk_num_array(numbers: &Vec<Option<u64>>) -> (r: Vec<u32>)
        ensures
            r@ == disk_numbers_spec(numbers@),
    {
        let mut out: Vec<u32> = Vec::new();
        let mut i: usize = 0;
        assert(numbers@.take(0) == Seq::<Option<u64>>::empty());
        while i < numbers.len()
            invariant
                i <= numbers.len(),
                out@ == disk_numbers_spec(numbers@.take(i as int)),
            decreases numbers.len() - i,
        {
            assert(numbers@.take(i + 1).drop_last() == numbers@.take(i as int));
            if let Some(n) = numbers[i] {
                out.push(n as u32);
            }
            i = i + 1;
        }
        assert(numbers@.take(numbers.len() as int) == numbers@);
        out
    }
}

fn contains_u32(v: &Vec<u32>, x: u32) -> (r: bool)
    ensures
        r == v@.contains(x),
{
    let mut i: usize = 0;
    while i < v.len()
        invariant
            i <= v.len(),
            forall|j: int| 0 <= j < i ==> v@[j] != x,
        decreases v.len() - i,
    {
        if v[i] == x {
            return true;
        }
        i = i + 1;
    }
    false
}

// ---------------------------------------------------------------------------
// The EFI system partition and existing partitions.
// ---------------------------------------------------------------------------

pub open spec fn fat32_text() -> Seq<char> {
    seq!['f', 'a', 't', '3', '2']
}

pub open spec fn boot_flag() -> Seq<char> {
    seq!['b', 'o', 'o', 't']
}

pub open spec fn esp_flag() -> Seq<char> {
    seq!['e', 's', 'p']
}

/// Whether the entry is a FAT32 partition flagged both `boot` and `esp`.
pub open spec fn is_efi_entry(p: PartedJsonPartition) -> bool {
    &&& opt_view(p.filesystem) == Some(fat32_text())
    &&& p.flags matches Some(f) && f.deep_view().contains(boot_flag()) && f.deep_view().contains(
        esp_flag(),
    )
}

/// The position of the first EFI system partition among `parts`.
pub open spec fn first_efi(parts: Seq<PartedJsonPartition>) -> Option<int>
    decreases parts.len(),
{
    if parts.len() == 0 {
        None
    } else if is_efi_entry(parts[0]) {
        Some(0)
    } else {
        match first_efi(parts.drop_first()) {
            Some(i) => Some(i + 1),
            None => None,
        }
    }
}

proof fn lemma_first_efi(parts: Seq<PartedJsonPartition>)
    ensures
        first_efi(parts) matches Some(i) ==> 0 <= i < parts.len() && is_efi_entry(parts[i]) && (
        forall|j: int| 0 <= j < i ==> !is_efi_entry(#[trigger] parts[j])),
        first_efi(parts) is None ==> forall|j: int|
            0 <= j < parts.len() ==> !is_efi_entry(#[trigger] parts[j]),
    decreases parts.len(),
{
    if parts.len() > 0 {
        lemma_first_efi(parts.drop_first());
        assert forall|j: int| 1 <= j < parts.len() implies parts[j] == parts.drop_first()[j - 1] by {}
    }
}

/// Whether the first EFI system partition, if any, has a number.
pub open spec fn efi_number_known(parts: Option<Vec<PartedJsonPartition>>) -> bool {
    parts matches Some(v) ==> (first_efi(v@) matches Some(i) ==> v@[i].number is Some)
}

/// The number of the EFI system partition, or the reason it was not
/// found.
pub open spec fn efi_number_spec(parts: Option<Vec<PartedJsonPartition>>) -> Result<i64, Seq<char>> {
    match parts {
        Some(v) => match first_efi(v@) {
            Some(i) => Ok(v@[i].number->0),
            None => Err("scan not found"@),
        },
        None => Err("scan not found"@),
    }
}

fn has_flag(flags: &Vec<String>, flag: &str) -> (r: bool)
    ensures
        r == flags.deep_view().contains(flag@),
{
    let mut i: usize = 0;
    while i < flags.len()
        invariant
            i <= flags.len(),
            forall|j: int| 0 <= j < i ==> flags.deep_view()[j] != flag@,
        decreases flags.len() - i,
    {
        if str_eq(flags[i].as_str(), flag) {
            assert(flags.deep_view()[i as int] == flag@);
            return true;
        }
        i = i + 1;
    }
    false
}

fn is_efi_entry_exec(p: &PartedJsonPartition) -> (r: bool)
    ensures
        r == is_efi_entry(*p),
{
    proof {
        reveal_strlit("fat32");
        assert("fat32"@ =~= fat32_text());
        reveal_strlit("boot");
        assert("boot"@ =~= boot_flag());
        reveal_strlit("esp");
        assert("esp"@ =~= esp_flag());
    }
    let fat = match &p.filesystem {
        Some(f) => str_eq(f.as_str(), "fat32"),
        None => false,
    };
    if !fat {
        return false;
    }
    match &p.flags {
        Some(f) => has_flag(f, "boot") && has_flag(f, "esp"),
        None => false,
    }
}

pub open spec fn result_view(r: Result<i64, String>) -> Result<i64, Seq<char>> {
    match r {
        Ok(n) => Ok(n),
        Err(e) => Err(e@),
    }
}

impl Os {
    /// The number of the first FAT32 partition flagged `boot` and `esp`
    /// among the entries of `parted -j --script print`.
    pub fn get_efi_blockdevice_in(partitions: &Option<Vec<PartedJsonPartition>>) -> (r: Result<i64, String>)
        requires
            efi_number_known(*partitions),
        ensures
            result_view(r) == efi_number_spec(*partitions),
    {
        match partitions {
            Some(parts) => {
                proof {
                    lemma_first_efi(parts@);
                }
                let mut i: usize = 0;
                while i < parts.len()
                    invariant
                        i <= parts.len(),
                        *partitions == Some(*parts),
                        efi_number_known(*partitions),
                        forall|j: int| 0 <= j < i ==> !is_efi_entry(#[trigger] parts@[j]),
                        first_efi(parts@) matches Some(k) ==> (0 <= k < parts@.len() && is_efi_entry(
                            parts@[k],
                        ) && (forall|j: int| 0 <= j < k ==> !is_efi_entry(#[trigger] parts@[j]))),
                        first_efi(parts@) is None ==> forall|j: int|
                            0 <= j < parts@.len() ==> !is_efi_entry(#[trigger] parts@[j]),
                    decreases parts.len() - i,
                {
                    if is_efi_entry_exec(&parts[i]) {
                        assert(first_efi(parts@) == Some(i as int));
                        match parts[i].number {
                            Some(n) => {
                                return Ok(n);
                            },
                            None => {
                                return Err(String::new());
                            },
                        }
                    }
                    i = i + 1;
                }
                Err(string_from("scan not found"))
            },
            None => Err(string_from("scan not found")),
        }
    }
}

/// The number of the last listed partition (not number 0) that covers
/// exactly the sectors `start` to `end`; -1 when there is none.
pub open spec fn initialized_number(spans: Seq<PartitionSpan>, start: u64, end: u64) -> i64
    decreases spans.len(),
{
    if spans.len() == 0 {
        -1i64
    } else {
        let s = spans.last();
        if s.start == start && s.end == end && s.partition_num != 0 {
            s.partition_num
        } else {
            initialized_number(spans.drop_last(), start, end)
        }
    }
}

impl Os {
    /// The number of the partition that covers exactly `start` to `end`
    /// among the partitions of the disk, or -1 when the area is not a
    /// partition.
    pub fn is_initialized_disk(start: u64, end: u64, spans: &Vec<PartitionSpan>) -> (r: i64)
        ensures
            r == initialized_number(spans@, start, end),
    {
        let mut partnum: i64 = -1;
        let mut i: usize = 0;
        assert(spans@.take(0) == Seq::<PartitionSpan>::empty());
        while i < spans.len()
            invariant
                i <= spans.len(),
                partnum == initialized_number(spans@.take(i as int), start, end),
            decreases spans.len() - i,
        {
            assert(spans@.take(i + 1).drop_last() == spans@.take(i as int));
            let s = spans[i];
            if s.start == start && s.end == end && s.partition_num != 0 {
                partnum = s.partition_num;
            }
            i = i + 1;
        }
        assert(spans@.take(spans.len() as int) == spans@);
        partnum
    }
}

/// The partition numbers among the entries of `parted -j`: every entry
/// number that is an unsigned integer, cut to 32 bits.
pub open spec fn disk_numbers_spec(numbers: Seq<Option<u64>>) -> Seq<u32>
    decreases numbers.len(),
{
    if numbers.len() == 0 {
        Seq::empty()
    } else {
        let prev = disk_numbers_spec(numbers.drop_last());
        match numbers.last() {
            Some(n) => prev.push(n as u32),
            None => prev,
        }
    }
}


/// Whether the slot numbers strictly increase, as in a fresh predictor.
pub open spec fn slots_increasing(slots: Seq<(u32, bool, bool)>) -> bool {
    forall|i: int, j: int| 0 <= i < j < slots.len() ==> (#[trigger] slots[i]).0 < (#[trigger] slots[j]).0
}

proof fn lemma_mark_drop_first(slots: Seq<(u32, bool, bool)>, k: u32)
    requires
        slots.len() > 0,
    ensures
        mark_spec(slots, k).drop_first() == mark_spec(slots.drop_first(), k),
        mark_spec(slots, k)[0] == (if slots[0].0 == k { (slots[0].0, true, slots[0].2) } else { slots[0] }),
{
    assert(mark_spec(slots, k).drop_first() =~= mark_spec(slots.drop_first(), k));
}

proof fn lemma_predict_member(slots: Seq<(u32, bool, bool)>, used: Seq<u32>)
    ensures
        predict_spec(slots, used) matches Some(p) ==> exists|i: int|
            0 <= i < slots.len() && (#[trigger] slots[i]).0 == p && slot_available(slots[i], used)
                && forall|j: int| 0 <= j < i ==> !slot_available(#[trigger] slots[j], used),
    decreases slots.len(),
{
    if slots.len() > 0 && !slot_available(slots[0], used) {
        lemma_predict_member(slots.drop_first(), used);
        if let Some(p) = predict_spec(slots, used) {
            let i = choose|i: int|
                0 <= i < slots.drop_first().len() && (#[trigger] slots.drop_first()[i]).0 == p
                    && slot_available(slots.drop_first()[i], used) && forall|j: int|
                    0 <= j < i ==> !slot_available(#[trigger] slots.drop_first()[j], used);
            assert(slots[i + 1] == slots.drop_first()[i]);
            assert forall|j: int| 0 <= j < i + 1 implies !slot_available(#[trigger] slots[j], used) by {
                if j > 0 {
                    assert(slots[j] == slots.drop_first()[j - 1]);
                }
            }
        }
    }
}

/// A number that was handed out is never predicted again.
pub proof fn law_marked_number_not_predicted(slots: Seq<(u32, bool, bool)>, used: Seq<u32>, k: u32)
    ensures
        predict_spec(mark_spec(slots, k), used) != Some(k),
    decreases slots.len(),
{
    if slots.len() > 0 {
        lemma_mark_drop_first(slots, k);
        law_marked_number_not_predicted(slots.drop_first(), used, k);
    }
}

/// A call of `mark` or of `ignore` on a predictor, with its number.
pub enum PredictorStep {
    Mark(u32),
    Ignore(u32),
}

/// The slots after `step`.
pub open spec fn step_spec(slots: Seq<(u32, bool, bool)>, step: PredictorStep) -> Seq<(u32, bool, bool)> {
    match step {
        PredictorStep::Mark(k) => mark_spec(slots, k),
        PredictorStep::Ignore(k) => ignore_spec(slots, k),
    }
}

/// The slots after `steps`, in order.
pub open spec fn steps_spec(slots: Seq<(u32, bool, bool)>, steps: Seq<PredictorStep>) -> Seq<(u32, bool, bool)>
    decreases steps.len(),
{
    if steps.len() == 0 {
        slots
    } else {
        step_spec(steps_spec(slots, steps.drop_last()), steps.last())
    }
}

/// Every slot numbered `k` has been handed out.
pub open spec fn marked(slots: Seq<(u32, bool, bool)>, k: u32) -> bool {
    forall|i: int| 0 <= i < slots.len() && (#[trigger] slots[i]).0 == k ==> slots[i].1
}

proof fn lemma_marked_not_predicted(slots: Seq<(u32, bool, bool)>, used: Seq<u32>, k: u32)
    requires
        marked(slots, k),
    ensures
        predict_spec(slots, used) != Some(k),
    decreases slots.len(),
{
    if slots.len() > 0 {
        assert(marked(slots.drop_first(), k)) by {
            assert forall|i: int|
                0 <= i < slots.drop_first().len() && (#[trigger] slots.drop_first()[i]).0
                    == k implies slots.drop_first()[i].1 by {
                assert(slots.drop_first()[i] == slots[i + 1]);
            }
        }
        lemma_marked_not_predicted(slots.drop_first(), used, k);
    }
}

proof fn lemma_steps_keep_mark(slots: Seq<(u32, bool, bool)>, steps: Seq<PredictorStep>, k: u32)
    requires
        marked(slots, k),
    ensures
        marked(steps_spec(slots, steps), k),
    decreases steps.len(),
{
    if steps.len() > 0 {
        lemma_steps_keep_mark(slots, steps.drop_last(), k);
        let before = steps_spec(slots, steps.drop_last());
        let after = steps_spec(slots, steps);
        assert forall|i: int| 0 <= i < after.len() && (#[trigger] after[i]).0 == k implies after[i].1 by {
            assert(before[i].0 == k);
        }
    }
}

/// A number that was handed out stays handed out whatever `mark` and
/// `ignore` calls follow, and is never predicted again, whether it is
/// free, in use or may be replaced.
pub proof fn law_mark_survives_later_steps(
    slots: Seq<(u32, bool, bool)>,
    k: u32,
    steps: Seq<PredictorStep>,
    used: Seq<u32>,
)
    ensures
        marked(steps_spec(mark_spec(slots, k), steps), k),
        predict_spec(steps_spec(mark_spec(slots, k), steps), used) != Some(k),
{
    let m = mark_spec(slots, k);
    assert(marked(m, k));
    lemma_steps_keep_mark(m, steps, k);
    lemma_marked_not_predicted(steps_spec(m, steps), used, k);
}

/// When numbers increase along the slots, handing out the predicted number
/// makes the next prediction a larger number (or none).
pub proof fn law_predictions_increase(slots: Seq<(u32, bool, bool)>, used: Seq<u32>, p: u32)
    requires
        slots_increasing(slots),
        predict_spec(slots, used) == Some(p),
    ensures
        predict_spec(mark_spec(slots, p), used) matches Some(q) ==> q > p,
    decreases slots.len(),
{
    lemma_mark_drop_first(slots, p);
    let m = mark_spec(slots, p);
    if slot_available(slots[0], used) {
        assert(slots[0].0 == p);
        lemma_predict_member(m.drop_first(), used);
        if let Some(q) = predict_spec(m, used) {
            assert(!slot_available(m[0], used));
            let i = choose|i: int|
                0 <= i < m.drop_first().len() && (#[trigger] m.drop_first()[i]).0 == q
                    && slot_available(m.drop_first()[i], used) && forall|j: int|
                    0 <= j < i ==> !slot_available(#[trigger] m.drop_first()[j], used);
            assert(m.drop_first()[i] == mark_spec(slots.drop_first(), p)[i]);
            assert(slots.drop_first()[i] == slots[i + 1]);
            assert(slots[0].0 < slots[i + 1].0);
        }
    } else {
        assert(slots_increasing(slots.drop_first())) by {
            assert forall|i: int, j: int| 0 <= i < j < slots.drop_first().len() implies
                (#[trigger] slots.drop_first()[i]).0 < (#[trigger] slots.drop_first()[j]).0 by {
                assert(slots.drop_first()[i] == slots[i + 1]);
                assert(slots.drop_first()[j] == slots[j + 1]);
            }
        }
        law_predictions_increase(slots.drop_first(), used, p);
        lemma_predict_member(slots.drop_first(), used);
        let i = choose|i: int|
            0 <= i < slots.drop_first().len() && (#[trigger] slots.drop_first()[i]).0 == p
                && slot_available(slots.drop_first()[i], used) && forall|j: int|
                0 <= j < i ==> !slot_available(#[trigger] slots.drop_first()[j], used);
        assert(slots.drop_first()[i] == slots[i + 1]);
        assert(slots[0].0 < slots[i + 1].0);
        assert(m[0] == slots[0]);
    }
}

/// A fresh predictor, with no number in use, predicts number 1.
pub proof fn law_fresh_predicts_one(n: nat)
    requires
        n > 0,
    ensures
        predict_spec(fresh_slots(n), Seq::<u32>::empty()) == Some(1u32),
{
    assert(fresh_slots(n)[0] == (1u32, false, false));
    assert(!Seq::<u32>::empty().contains(1u32));
}

impl Os {
    /// The logical sector size of a disk from the output of
    /// `blockdev --getss` (or why it could not be run).
    pub fn get_sector_from(output: &Result<String, String>) -> (r: Result<u64, String>)
        ensures
            output matches Ok(o) ==> (match crate::text::parse_u64_spec(o@) {
                Some(n) => r == Ok::<u64, String>(n),
                None => r matches Err(m) && m@ == "blockdev getss fail str to int conversion"@,
            }),
            output is Err ==> (r matches Err(m) && m@ == "blockdev getss failed"@),
    {
        match output {
            Ok(o) => {
                let v = chars_of(o.as_str());
                match crate::text::parse_u64(&v) {
                    Some(n) => Ok(n),
                    None => Err(string_from("blockdev getss fail str to int conversion")),
                }
            },
            Err(_) => Err(string_from("blockdev getss failed")),
        }
    }
}

impl Os {
    /// Whether the first swap partition of the plan, if any, has a path
    /// (see `swap_path_known`).
    pub fn swap_path_known_exec(data: &Storage) -> (r: bool)
        ensures
            r == swap_path_known(data@.partitions),
    {
        match &data.partitions {
            Some(parts) => {
                let ghost pv = data@.partitions->0;
                proof {
                    lemma_first_swap(pv);
                }
                let mut i: usize = 0;
                while i < parts.len()
                    invariant
                        i <= parts.len(),
                        pv == crate::blueprint::partition_views(parts@),
                        data@.partitions == Some(pv),
                        forall|j: int| 0 <= j < i ==> (#[trigger] pv[j]).filesystem != Some(swap_fs()),
                        first_swap(pv) matches Some(k) ==> (0 <= k < pv.len() && pv[k].filesystem == Some(swap_fs())
                            && (forall|j: int| 0 <= j < k ==> (#[trigger] pv[j]).filesystem != Some(swap_fs()))),
                        first_swap(pv) is None ==> forall|j: int|
                            0 <= j < pv.len() ==> (#[trigger] pv[j]).filesystem != Some(swap_fs()),
                    decreases parts.len() - i,
                {
                    assert(pv[i as int] == parts@[i as int]@);
                    if is_swap(&parts[i]) {
                        assert(first_swap(pv) == Some(i as int));
                        return parts[i].path.is_some();
                    }
                    i = i + 1;
                }
                true
            },
            None => true,
        }
    }

    /// Whether the first EFI system partition, if any, has a number (see
    /// `efi_number_known`).
    pub fn efi_number_known_exec(partitions: &Option<Vec<PartedJsonPartition>>) -> (r: bool)
        ensures
            r == efi_number_known(*partitions),
    {
        match partitions {
            Some(parts) => {
                proof {
                    lemma_first_efi(parts@);
                }
                let mut i: usize = 0;
                while i < parts.len()
                    invariant
                        i <= parts.len(),
                        *partitions == Some(*parts),
                        forall|j: int| 0 <= j < i ==> !is_efi_entry(#[trigger] parts@[j]),
                        first_efi(parts@) matches Some(k) ==> (0 <= k < parts@.len() && is_efi_entry(
                            parts@[k],
                        ) && (forall|j: int| 0 <= j < k ==> !is_efi_entry(#[trigger] parts@[j]))),
                        first_efi(parts@) is None ==> forall|j: int|
                            0 <= j < parts@.len() ==> !is_efi_entry(#[trigger] parts@[j]),
                    decreases parts.len() - i,
                {
                    if is_efi_entry_exec(&parts[i]) {
                        assert(first_efi(parts@) == Some(i as int));
                        return parts[i].number.is_some();
                    }
                    i = i + 1;
                }
                true
            },
            None => true,
        }
    }
}

// ---------------------------------------------------------------------------
// Reading back the patched boot loader configuration.
// ---------------------------------------------------------------------------

proof fn lemma_split_pieces_plain(s: Seq<char>, sep: char)
    ensures
        forall|i: int|
            0 <= i < split_spec(s, sep).len() ==> !(#[trigger] split_spec(s, sep)[i]).contains(sep),
    decreases s.len(),
{
    if s.len() > 0 {
        lemma_split_pieces_plain(s.drop_last(), sep);
        crate::text::lemma_split_nonempty(s.drop_last(), sep);
        let prev = split_spec(s.drop_last(), sep);
        if s.last() != sep {
            let l = prev.last().push(s.last());
            assert(!l.contains(sep)) by {
                if l.contains(sep) {
                    let k = choose|k: int| 0 <= k < l.len() && l[k] == sep;
                    if k < l.len() - 1 {
                        assert(prev[prev.len() - 1][k] == sep);
                        assert(prev[prev.len() - 1].contains(sep));
                    }
                }
            }
        }
        assert forall|i: int|
            0 <= i < split_spec(s, sep).len() implies !(#[trigger] split_spec(s, sep)[i]).contains(sep) by {
            if i < prev.len() - 1 {
                assert(split_spec(s, sep)[i] == prev[i]);
            } else if i == prev.len() - 1 && s.last() == sep {
                assert(split_spec(s, sep)[i] == prev[i]);
            } else if i == prev.len() {
                assert(split_spec(s, sep)[i] =~= Seq::<char>::empty());
            }
        }
    }
}

/// Whether no line of `lines` holds a line feed.
pub open spec fn lines_plain(lines: Seq<Seq<char>>) -> bool {
    forall|i: int| 0 <= i < lines.len() ==> !(#[trigger] lines[i]).contains('\n')
}

/// Whether no line of `lines` ends with a carriage return.
pub open spec fn no_trailing_cr(lines: Seq<Seq<char>>) -> bool {
    forall|i: int|
        0 <= i < lines.len() ==> !((#[trigger] lines[i]).len() > 0 && lines[i].last() == '\r')
}

proof fn lemma_split_joined(lines: Seq<Seq<char>>)
    requires
        lines.len() >= 1,
        lines_plain(lines),
    ensures
        split_spec(join_lines(lines).push('\n'), '\n') == lines.push(Seq::<char>::empty()),
    decreases lines.len(),
{
    if lines.len() == 1 {
        crate::text::lemma_split_append_plain(Seq::<char>::empty(), lines[0], '\n');
        assert(Seq::<char>::empty() + lines[0] =~= lines[0]);
        assert(split_spec(Seq::<char>::empty(), '\n').update(0, Seq::<char>::empty() + lines[0]) =~= seq![lines[0]]);
        assert(join_lines(lines) == lines[0]);
        assert(join_lines(lines).push('\n').drop_last() =~= lines[0]);
        assert(lines.push(Seq::<char>::empty()) =~= seq![lines[0]].push(Seq::<char>::empty()));
    } else {
        let prev = lines.drop_last();
        assert(lines_plain(prev)) by {
            assert forall|i: int| 0 <= i < prev.len() implies !(#[trigger] prev[i]).contains('\n') by {
                assert(prev[i] == lines[i]);
            }
        }
        lemma_split_joined(prev);
        let head = join_lines(prev).push('\n');
        assert(!lines.last().contains('\n')) by {
            assert(lines[lines.len() - 1] == lines.last());
        }
        crate::text::lemma_split_append_plain(head, lines.last(), '\n');
        assert(join_lines(lines) == head + lines.last());
        let p = prev.push(Seq::<char>::empty());
        assert(p.update(p.len() - 1, p.last() + lines.last()) =~= lines) by {
            assert(Seq::<char>::empty() + lines.last() =~= lines.last());
        }
        assert(join_lines(lines).push('\n').drop_last() =~= join_lines(lines));
    }
}

proof fn lemma_lines_of_joined(lines: Seq<Seq<char>>)
    requires
        lines.len() >= 1,
        lines_plain(lines),
        no_trailing_cr(lines),
    ensures
        lines_spec(join_lines(lines).push('\n')) == lines,
{
    lemma_split_joined(lines);
    let pieces = lines.push(Seq::<char>::empty());
    assert(pieces.drop_last() =~= lines);
    assert forall|i: int| 0 <= i < lines.len() implies strip_cr(lines[i]) == lines[i] by {}
    assert(lines_spec(join_lines(lines).push('\n')) =~= lines);
}

proof fn lemma_lines_spec_plain(content: Seq<char>)
    ensures
        lines_plain(lines_spec(content)),
{
    lemma_split_pieces_plain(content, '\n');
    crate::text::lemma_split_nonempty(content, '\n');
    let pieces = split_spec(content, '\n');
    let l = lines_spec(content);
    assert forall|i: int| 0 <= i < l.len() implies !(#[trigger] l[i]).contains('\n') by {
        assert(!pieces[i].contains('\n'));
        if l[i].contains('\n') {
            let k = choose|k: int| 0 <= k < l[i].len() && l[i][k] == '\n';
            assert(pieces[i][k] == '\n');
        }
    }
}

proof fn lemma_setting_line(val: bool)
    ensures
        is_key_line(grub_setting(val)),
        !grub_setting(val).contains('\n'),
        grub_setting(val).len() > 0 && grub_setting(val).last() != '\r',
{
    reveal_strlit("GRUB_DISABLE_OS_PROBER=");
    let s = grub_setting(val);
    assert(!white_space(s[0]));
    assert(trim_start_ws(s) == s);
    assert(s.take(grub_key_assign().len() as int) =~= grub_key_assign());
    assert(!s.contains('\n')) by {
        if s.contains('\n') {
            let k = choose|k: int| 0 <= k < s.len() && s[k] == '\n';
            if k < 23 {
                assert(s[k] == grub_key_assign()[k]);
            } else {
                assert(s[k] == bool_text(val)[k - 23]);
            }
        }
    }
    assert(s.last() == bool_text(val).last());
}

proof fn lemma_first_key_line_at(lines: Seq<Seq<char>>, i: int)
    requires
        0 <= i < lines.len(),
        is_key_line(lines[i]),
        forall|j: int| 0 <= j < i ==> !is_key_line(#[trigger] lines[j]),
    ensures
        first_key_line(lines) == Some(i),
    decreases i,
{
    if i > 0 {
        assert forall|j: int| 0 <= j < i - 1 implies !is_key_line(#[trigger] lines.drop_first()[j]) by {
            assert(lines.drop_first()[j] == lines[j + 1]);
        }
        lemma_first_key_line_at(lines.drop_first(), i - 1);
        assert(!is_key_line(lines[0]));
    }
}

proof fn lemma_patched_lines_shape(lines: Seq<Seq<char>>, val: bool)
    requires
        lines_plain(lines),
        no_trailing_cr(patched_lines(lines, val)),
    ensures
        patched_lines(lines, val).len() >= 1,
        lines_plain(patched_lines(lines, val)),
        no_trailing_cr(patched_lines(lines, val)),
        patched_lines(patched_lines(lines, val), val) == patched_lines(lines, val),
{
    lemma_setting_line(val);
    lemma_first_key_line(lines);
    let pl = patched_lines(lines, val);
    let st = grub_setting(val);
    match first_key_line(lines) {
        Some(i) => {
            assert(pl == lines.update(i, st));
            assert forall|j: int| 0 <= j < i implies !is_key_line(#[trigger] pl[j]) by {
                assert(pl[j] == lines[j]);
            }
            lemma_first_key_line_at(pl, i);
            assert(pl.update(i, st) =~= pl);
        },
        None => {
            assert(pl == lines.push(st));
            assert forall|j: int| 0 <= j < lines.len() implies !is_key_line(#[trigger] pl[j]) by {
                assert(pl[j] == lines[j]);
            }
            lemma_first_key_line_at(pl, lines.len() as int);
            assert(pl.update(lines.len() as int, st) =~= pl);
        },
    }
    assert forall|j: int| 0 <= j < pl.len() implies !(#[trigger] pl[j]).contains('\n') by {
        if pl[j] != st {
            assert(exists|k: int| 0 <= k < lines.len() && pl[j] == lines[k]) by {
                assert(pl[j] == lines[j]);
            }
        }
    }
}

/// Reading the lines of the patched configuration gives back the patched
/// lines, unless a line that the patch keeps ends with a carriage return
/// that is not part of its line ending (the replaced key line may).
pub proof fn law_patched_config_reads_back(content: Seq<char>, val: bool)
    requires
        no_trailing_cr(patched_lines(lines_spec(content), val)),
    ensures
        lines_spec(patch_grub_spec(content, val)) == patched_lines(lines_spec(content), val),
{
    lemma_lines_spec_plain(content);
    lemma_patched_lines_shape(lines_spec(content), val);
    lemma_lines_of_joined(patched_lines(lines_spec(content), val));
}

/// Patching a configuration a second time with the same value changes
/// nothing, unless a line that the patch keeps ends with a carriage return
/// that is not part of its line ending (the replaced key line may).
pub proof fn law_patch_grub_idempotent(content: Seq<char>, val: bool)
    requires
        no_trailing_cr(patched_lines(lines_spec(content), val)),
    ensures
        patch_grub_spec(patch_grub_spec(content, val), val) == patch_grub_spec(content, val),
{
    law_patched_config_reads_back(content, val);
    lemma_lines_spec_plain(content);
    lemma_patched_lines_shape(lines_spec(content), val);
}

}
