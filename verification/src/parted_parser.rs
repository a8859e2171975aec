//! Reading the machine output of `parted -m ... unit s print free`.
//!
//! The output is a list of records ended by `;`.  The first record is the
//! unit marker (`BYT`), the second describes the disk and every further
//! record describes one partition or free area.  Fields are separated by
//! `:`; sector counts carry a one-letter unit suffix.
use vstd::prelude::*;
use crate::text::{
    all_digits, chars_of, decimal_spec, drop_last_char_spec, join_with, lemma_decimal_digits,
    lemma_parse_decimal, lemma_split_join, pieces_free_of, parse_u32, parse_u32_spec, parse_u64, parse_u64_spec,
    pieces_view, split_chars, split_spec, string_of, trim_start_char, trim_start_char_spec,
};

verus! {

/// The disk record of the `parted` output.
pub struct PartedDiskInfo {
    pub model: String,
    pub disk_type: String,
    pub disk: String,
    pub sector: u64,
    pub sector_size_logical: u32,
    pub sector_size_physical: u32,
    pub partition_table: String,
    pub disk_flags: String,
}

/// One partition (or free area) record of the `parted` output.
pub struct PartedData {
    pub number: u32,
    pub start: u64,
    pub end: u64,
    pub size: u64,
    pub fs: String,
    pub partition_name: String,
    pub flags: String,
}

/// The disk record and the partition records of one `parted` output.
pub struct PartedResult {
    pub info: PartedDiskInfo,
    pub data: Vec<PartedData>,
}

pub struct PartedDiskInfoView {
    pub model: Seq<char>,
    pub disk_type: Seq<char>,
    pub disk: Seq<char>,
    pub sector: u64,
    pub sector_size_logical: u32,
    pub sector_size_physical: u32,
    pub partition_table: Seq<char>,
    pub disk_flags: Seq<char>,
}

pub struct PartedDataView {
    pub number: u32,
    pub start: u64,
    pub end: u64,
    pub size: u64,
    pub fs: Seq<char>,
    pub partition_name: Seq<char>,
    pub flags: Seq<char>,
}

pub struct PartedResultView {
    pub info: PartedDiskInfoView,
    pub data: Seq<PartedDataView>,
}

impl View for PartedDiskInfo {
    type V = PartedDiskInfoView;

    open spec fn view(&self) -> PartedDiskInfoView {
        PartedDiskInfoView {
            model: self.model@,
            disk_type: self.disk_type@,
            disk: self.disk@,
            sector: self.sector,
            sector_size_logical: self.sector_size_logical,
            sector_size_physical: self.sector_size_physical,
            partition_table: self.partition_table@,
            disk_flags: self.disk_flags@,
        }
    }
}

impl View for PartedData {
    type V = PartedDataView;

    open spec fn view(&self) -> PartedDataView {
        PartedDataView {
            number: self.number,
            start: self.start,
            end: self.end,
            size: self.size,
            fs: self.fs@,
            partition_name: self.partition_name@,
            flags: self.flags@,
        }
    }
}

pub open spec fn parted_data_views(v: Seq<PartedData>) -> Seq<PartedDataView> {
    v.map_values(|d: PartedData| d@)
}

impl View for PartedResult {
    type V = PartedResultView;

    open spec fn view(&self) -> PartedResultView {
        PartedResultView { info: self.info@, data: parted_data_views(self.data@) }
    }
}

/// The text of field `k`, or the empty text when there are fewer fields.
pub open spec fn text_field(f: Seq<Seq<char>>, k: int) -> Seq<char> {
    if k < f.len() {
        f[k]
    } else {
        Seq::<char>::empty()
    }
}

/// A sector count such as `2048s`: the number without its unit letter.
pub open spec fn sector_field(f: Seq<Seq<char>>, k: int) -> Option<u64> {
    if k < f.len() {
        parse_u64_spec(drop_last_char_spec(f[k]))
    } else {
        Some(0u64)
    }
}

/// A plain 32-bit number field.
pub open spec fn u32_field(f: Seq<Seq<char>>, k: int) -> Option<u32> {
    if k < f.len() {
        parse_u32_spec(f[k])
    } else {
        Some(0u32)
    }
}

pub open spec fn empty_disk_info_view() -> PartedDiskInfoView {
    PartedDiskInfoView {
        model: Seq::empty(),
        disk_type: Seq::empty(),
        disk: Seq::empty(),
        sector: 0,
        sector_size_logical: 0,
        sector_size_physical: 0,
        partition_table: Seq::empty(),
        disk_flags: Seq::empty(),
    }
}

/// Whether every number in the disk record `line` can be read.
pub open spec fn disk_line_well_formed(line: Seq<char>) -> bool {
    let f = split_spec(line, ':');
    &&& sector_field(f, 1) is Some
    &&& u32_field(f, 3) is Some
    &&& u32_field(f, 4) is Some
}

/// The disk described by the record `line`:
/// `path:sectors:transport:logical size:physical size:table:model:flags`.
pub open spec fn disk_info_spec(line: Seq<char>) -> PartedDiskInfoView {
    let f = split_spec(line, ':');
    PartedDiskInfoView {
        disk: text_field(f, 0),
        sector: sector_field(f, 1)->0,
        disk_type: text_field(f, 2),
        sector_size_logical: u32_field(f, 3)->0,
        sector_size_physical: u32_field(f, 4)->0,
        partition_table: text_field(f, 5),
        model: text_field(f, 6),
        disk_flags: text_field(f, 7),
    }
}

/// Whether every number in the partition record `line` can be read.
pub open spec fn partition_line_well_formed(line: Seq<char>) -> bool {
    let f = split_spec(line, ':');
    &&& u32_field(f, 0) is Some
    &&& sector_field(f, 1) is Some
    &&& sector_field(f, 2) is Some
    &&& sector_field(f, 3) is Some
}

/// The partition described by the record `line`:
/// `number:start:end:size:filesystem:name:flags`.
pub open spec fn partition_spec(line: Seq<char>) -> PartedDataView {
    let f = split_spec(line, ':');
    PartedDataView {
        number: u32_field(f, 0)->0,
        start: sector_field(f, 1)->0,
        end: sector_field(f, 2)->0,
        size: sector_field(f, 3)->0,
        fs: text_field(f, 4),
        partition_name: text_field(f, 5),
        flags: text_field(f, 6),
    }
}

/// The records of the output: the pieces between `;`, without their
/// leading line breaks, leaving out those that are then empty.
pub open spec fn parted_records(pieces: Seq<Seq<char>>) -> Seq<Seq<char>>
    decreases pieces.len(),
{
    if pieces.len() == 0 {
        Seq::empty()
    } else {
        let prev = parted_records(pieces.drop_last());
        let t = trim_start_char_spec(pieces.last(), '\n');
        if t.len() == 0 {
            prev
        } else {
            prev.push(t)
        }
    }
}

pub open spec fn output_records(raw: Seq<char>) -> Seq<Seq<char>> {
    parted_records(split_spec(raw, ';'))
}

/// Whether every number that the output `raw` holds can be read.
pub open spec fn parted_output_well_formed(raw: Seq<char>) -> bool {
    let recs = output_records(raw);
    &&& recs.len() > 1 ==> disk_line_well_formed(recs[1])
    &&& forall|i: int| 2 <= i < recs.len() ==> partition_line_well_formed(#[trigger] recs[i])
}

/// The partition records among `recs`: all but the first two.
pub open spec fn partition_records(recs: Seq<Seq<char>>) -> Seq<PartedDataView> {
    if recs.len() > 2 {
        recs.skip(2).map_values(|r: Seq<char>| partition_spec(r))
    } else {
        Seq::empty()
    }
}

/// What the output `raw` says: the disk from the second record, the
/// partitions from every later one.
pub open spec fn parse_spec(raw: Seq<char>) -> PartedResultView {
    let recs = output_records(raw);
    PartedResultView {
        info: if recs.len() > 1 {
            disk_info_spec(recs[1])
        } else {
            empty_disk_info_view()
        },
        data: partition_records(recs),
    }
}

impl PartedDiskInfo {
    pub fn empty() -> (r: PartedDiskInfo)
        ensures
            r@ == empty_disk_info_view(),
    {
        PartedDiskInfo {
            model: String::new(),
            disk_type: String::new(),
            disk: String::new(),
            sector: 0,
            sector_size_logical: 0,
            sector_size_physical: 0,
            partition_table: String::new(),
            disk_flags: String::new(),
        }
    }
}

impl Default for PartedDiskInfo {
    fn default() -> (r: PartedDiskInfo)
        ensures
            r@ == empty_disk_info_view(),
    {
        PartedDiskInfo::empty()
    }
}

fn text_field_of(f: &Vec<Vec<char>>, k: usize) -> (r: String)
    ensures
        r@ == text_field(pieces_view(f@), k as int),
{
    if k < f.len() {
        string_of(&f[k])
    } else {
        String::new()
    }
}

fn sector_field_of(f: &Vec<Vec<char>>, k: usize) -> (r: Option<u64>)
    ensures
        r == sector_field(pieces_view(f@), k as int),
{
    if k < f.len() {
        let mut t = f[k].clone();
        if t.len() > 0 {
            t.pop();
        }
        parse_u64(&t)
    } else {
        Some(0)
    }
}

fn u32_field_of(f: &Vec<Vec<char>>, k: usize) -> (r: Option<u32>)
    ensures
        r == u32_field(pieces_view(f@), k as int),
{
    if k < f.len() {
        parse_u32(&f[k])
    } else {
        Some(0)
    }
}

impl PartedResult {
    /// Reads a disk record; `None` when one of its numbers cannot be read.
    pub fn try_disk_parse(data: &Vec<char>) -> (r: Option<PartedDiskInfo>)
        ensures
            r is Some <==> disk_line_well_formed(data@),
            r matches Some(info) ==> info@ == disk_info_spec(data@),
    {
        let f = split_chars(data, ':');
        let sector = sector_field_of(&f, 1);
        let logical = u32_field_of(&f, 3);
        let physical = u32_field_of(&f, 4);
        match (sector, logical, physical) {
            (Some(sector), Some(logical), Some(physical)) => Some(
                PartedDiskInfo {
                    disk: text_field_of(&f, 0),
                    sector,
                    disk_type: text_field_of(&f, 2),
                    sector_size_logical: logical,
                    sector_size_physical: physical,
                    partition_table: text_field_of(&f, 5),
                    model: text_field_of(&f, 6),
                    disk_flags: text_field_of(&f, 7),
                },
            ),
            _ => None,
        }
    }

    /// Reads a partition record; `None` when one of its numbers cannot be
    /// read.
    pub fn try_partition_parse(data: &Vec<char>) -> (r: Option<PartedData>)
        ensures
            r is Some <==> partition_line_well_formed(data@),
            r matches Some(d) ==> d@ == partition_spec(data@),
    {
        let f = split_chars(data, ':');
        let number = u32_field_of(&f, 0);
        let start = sector_field_of(&f, 1);
        let end = sector_field_of(&f, 2);
        let size = sector_field_of(&f, 3);
        match (number, start, end, size) {
            (Some(number), Some(start), Some(end), Some(size)) => Some(
                PartedData {
                    number,
                    start,
                    end,
                    size,
                    fs: text_field_of(&f, 4),
                    partition_name: text_field_of(&f, 5),
                    flags: text_field_of(&f, 6),
                },
            ),
            _ => None,
        }
    }

    /// Reads the disk record `data`.
    pub fn _gparted_disk_parse(data: String) -> (r: PartedDiskInfo)
        requires
            disk_line_well_formed(data@),
        ensures
            r@ == disk_info_spec(data@),
    {
        let v = chars_of(data.as_str());
        match Self::try_disk_parse(&v) {
            Some(info) => info,
            None => PartedDiskInfo::empty(),
        }
    }

    /// Reads the partition record `data`.
    pub fn _gparted_disk_partition_parse(data: String) -> (r: PartedData)
        requires
            partition_line_well_formed(data@),
        ensures
            r@ == partition_spec(data@),
    {
        let v = chars_of(data.as_str());
        match Self::try_partition_parse(&v) {
            Some(d) => d,
            None => PartedData {
                number: 0,
                start: 0,
                end: 0,
                size: 0,
                fs: String::new(),
                partition_name: String::new(),
                flags: String::new(),
            },
        }
    }

    /// Reads the whole output `raw`; `None` when one of its numbers cannot
    /// be read.
    pub fn try_parse(raw: &str) -> (r: Option<PartedResult>)
        ensures
            r is Some <==> parted_output_well_formed(raw@),
            r matches Some(res) ==> res@ == parse_spec(raw@),
    {
        let chars = chars_of(raw);
        let pieces = split_chars(&chars, ';');
        let ghost pv = pieces_view(pieces@);
        let mut info = PartedDiskInfo::empty();
        let mut data: Vec<PartedData> = Vec::new();
        let mut count: usize = 0;
        let mut i: usize = 0;
        assert(pv.take(0) == Seq::<Seq<char>>::empty());
        while i < pieces.len()
            invariant
                i <= pieces.len(),
                pv == pieces_view(pieces@),
                pv == split_spec(raw@, ';'),
                count == parted_records(pv.take(i as int)).len(),
                count <= i,
                info@ == (if count > 1 {
                    disk_info_spec(parted_records(pv.take(i as int))[1])
                } else {
                    empty_disk_info_view()
                }),
                count > 1 ==> disk_line_well_formed(parted_records(pv.take(i as int))[1]),
                forall|j: int|
                    2 <= j < count ==> partition_line_well_formed(
                        #[trigger] parted_records(pv.take(i as int))[j],
                    ),
                parted_data_views(data@) == partition_records(parted_records(pv.take(i as int))),
            decreases pieces.len() - i,
        {
            let ghost before = parted_records(pv.take(i as int));
            assert(pv.take(i + 1).drop_last() == pv.take(i as int));
            assert(pv.take(i + 1).last() == pieces@[i as int]@);
            let sanitized = trim_start_char(&pieces[i], '\n');
            if sanitized.len() == 0 {
                i = i + 1;
                assert(parted_records(pv.take(i as int)) == before);
                continue;
            }
            let ghost after = before.push(sanitized@);
            assert(parted_records(pv.take(i + 1)) == after);
            if count == 1 {
                match Self::try_disk_parse(&sanitized) {
                    Some(d) => {
                        info = d;
                    },
                    None => {
                        assert(!parted_output_well_formed(raw@)) by {
                            lemma_records_prefix(pv, i + 1);
                            assert(after[1] == sanitized@);
                            assert(pv.take(pieces.len() as int) == pv);
                            assert(parted_records(pv)[1] == after[1]);
                        }
                        return None;
                    },
                }
            }
            if count > 1 {
                let ghost old_data = data@;
                match Self::try_partition_parse(&sanitized) {
                    Some(d) => {
                        data.push(d);
                        assert(after.skip(2) == before.skip(2).push(sanitized@));
                        assert(parted_data_views(data@) == parted_data_views(old_data).push(
                            partition_spec(sanitized@),
                        ));
                    },
                    None => {
                        assert(!parted_output_well_formed(raw@)) by {
                            lemma_records_prefix(pv, i + 1);
                            assert(after[count as int] == sanitized@);
                            assert(parted_records(pv)[count as int] == after[count as int]);
                        }
                        return None;
                    },
                }
            } else if count == 1 {
                assert(after.skip(2).len() == 0);
            }
            count = count + 1;
            i = i + 1;
            assert forall|j: int|
                2 <= j < count implies partition_line_well_formed(
                    #[trigger] parted_records(pv.take(i as int))[j],
                ) by {
                if j < count - 1 {
                    assert(after[j] == before[j]);
                }
            }
        }
        assert(pv.take(pieces.len() as int) == pv);
        Some(PartedResult { info, data })
    }

    /// Reads the whole output `raw` of `parted -m ... unit s print free`.
    pub fn parse(raw_string: String) -> (r: PartedResult)
        requires
            parted_output_well_formed(raw_string@),
        ensures
            r@ == parse_spec(raw_string@),
    {
        match Self::try_parse(raw_string.as_str()) {
            Some(r) => r,
            None => PartedResult { info: PartedDiskInfo::empty(), data: Vec::new() },
        }
    }
}

/// The records of a prefix of the pieces are a prefix of all records.
proof fn lemma_records_prefix(pieces: Seq<Seq<char>>, k: int)
    requires
        0 <= k <= pieces.len(),
    ensures
        parted_records(pieces.take(k)).len() <= parted_records(pieces).len(),
        forall|j: int|
            0 <= j < parted_records(pieces.take(k)).len() ==> #[trigger] parted_records(pieces)[j]
                == parted_records(pieces.take(k))[j],
    decreases pieces.len() - k,
{
    if k < pieces.len() {
        lemma_records_prefix(pieces, k + 1);
        assert(pieces.take(k + 1).drop_last() == pieces.take(k));
    } else {
        assert(pieces.take(k) == pieces);
    }
}


/// The text of a number as `parted -m` writes it.
pub open spec fn number_text(n: nat) -> Seq<char> {
    decimal_spec(n)
}

/// The text of a sector count as `parted -m ... unit s` writes it.
pub open spec fn sectors_text(n: nat) -> Seq<char> {
    decimal_spec(n).push('s')
}

proof fn lemma_number_texts_plain(n: nat)
    ensures
        !number_text(n).contains(':'),
        !sectors_text(n).contains(':'),
        sectors_text(n).drop_last() == number_text(n),
        sectors_text(n).len() > 0,
{
    lemma_decimal_digits(n);
    let d = decimal_spec(n);
    assert(all_digits(d));
    if d.contains(':') {
        let k = choose|k: int| 0 <= k < d.len() && d[k] == ':';
        assert(crate::text::is_ascii_digit(d[k]));
    }
    let t = sectors_text(n);
    if t.contains(':') {
        let k = choose|k: int| 0 <= k < t.len() && t[k] == ':';
        if k < d.len() {
            assert(t[k] == d[k]);
        }
    }
    assert(t.drop_last() =~= d);
}

/// A disk record that `parted -m` prints for a disk of `sectors` sectors
/// with logical sectors of `logical` bytes and physical sectors of
/// `physical` bytes, `path:sectors:transport:logical:physical:table:model:flags`,
/// reads back as these values: the fourth field is the logical sector
/// size and the fifth the physical one.
pub proof fn law_disk_record_fields(
    path: Seq<char>,
    sectors: u64,
    transport: Seq<char>,
    logical: u32,
    physical: u32,
    table: Seq<char>,
    model: Seq<char>,
    flags: Seq<char>,
)
    requires
        !path.contains(':'),
        !transport.contains(':'),
        !table.contains(':'),
        !model.contains(':'),
        !flags.contains(':'),
    ensures
        ({
            let line = join_with(
                seq![
                    path,
                    sectors_text(sectors as nat),
                    transport,
                    number_text(logical as nat),
                    number_text(physical as nat),
                    table,
                    model,
                    flags,
                ],
                ':',
            );
            &&& disk_line_well_formed(line)
            &&& disk_info_spec(line).disk == path
            &&& disk_info_spec(line).sector == sectors
            &&& disk_info_spec(line).disk_type == transport
            &&& disk_info_spec(line).sector_size_logical == logical
            &&& disk_info_spec(line).sector_size_physical == physical
            &&& disk_info_spec(line).partition_table == table
            &&& disk_info_spec(line).model == model
            &&& disk_info_spec(line).disk_flags == flags
        }),
{
    let pieces = seq![
        path,
        sectors_text(sectors as nat),
        transport,
        number_text(logical as nat),
        number_text(physical as nat),
        table,
        model,
        flags,
    ];
    lemma_number_texts_plain(sectors as nat);
    lemma_number_texts_plain(logical as nat);
    lemma_number_texts_plain(physical as nat);
    assert(pieces_free_of(pieces, ':'));
    lemma_split_join(pieces, ':');
    lemma_parse_decimal(sectors as nat, u64::MAX as nat);
    lemma_parse_decimal(logical as nat, u32::MAX as nat);
    lemma_parse_decimal(physical as nat, u32::MAX as nat);
    let f = split_spec(join_with(pieces, ':'), ':');
    assert(f == pieces);
    assert(drop_last_char_spec(f[1]) == number_text(sectors as nat));
}

/// A partition record that `parted -m ... unit s` prints,
/// `number:start:end:size:filesystem:name:flags` with the three sector
/// counts in sectors, reads back as these values, field by field.
pub proof fn law_partition_record_fields(
    number: u32,
    start: u64,
    end: u64,
    size: u64,
    fs: Seq<char>,
    name: Seq<char>,
    flags: Seq<char>,
)
    requires
        !fs.contains(':'),
        !name.contains(':'),
        !flags.contains(':'),
    ensures
        ({
            let line = join_with(
                seq![
                    number_text(number as nat),
                    sectors_text(start as nat),
                    sectors_text(end as nat),
                    sectors_text(size as nat),
                    fs,
                    name,
                    flags,
                ],
                ':',
            );
            &&& partition_line_well_formed(line)
            &&& partition_spec(line).number == number
            &&& partition_spec(line).start == start
            &&& partition_spec(line).end == end
            &&& partition_spec(line).size == size
            &&& partition_spec(line).fs == fs
            &&& partition_spec(line).partition_name == name
            &&& partition_spec(line).flags == flags
        }),
{
    let pieces = seq![
        number_text(number as nat),
        sectors_text(start as nat),
        sectors_text(end as nat),
        sectors_text(size as nat),
        fs,
        name,
        flags,
    ];
    lemma_number_texts_plain(number as nat);
    lemma_number_texts_plain(start as nat);
    lemma_number_texts_plain(end as nat);
    lemma_number_texts_plain(size as nat);
    assert(pieces_free_of(pieces, ':'));
    lemma_split_join(pieces, ':');
    lemma_parse_decimal(number as nat, u32::MAX as nat);
    lemma_parse_decimal(start as nat, u64::MAX as nat);
    lemma_parse_decimal(end as nat, u64::MAX as nat);
    lemma_parse_decimal(size as nat, u64::MAX as nat);
    let f = split_spec(join_with(pieces, ':'), ':');
    assert(f == pieces);
    assert(drop_last_char_spec(f[1]) == number_text(start as nat));
    assert(drop_last_char_spec(f[2]) == number_text(end as nat));
    assert(drop_last_char_spec(f[3]) == number_text(size as nat));
}

}
