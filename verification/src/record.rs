//! The counters of one device, and the decoding of one line of the table.

use crate::decimal::{integer_value, parse_i64};
use crate::fields::{fields, split_fields};
use vstd::prelude::*;

verus! {

/// The size of a sector, the unit in which the table counts, in bytes.
pub const SECTOR_SIZE: i64 = 512;

/// The position, among the fields of a line, of the device's name.
pub const NAME_FIELD: usize = 2;

/// The position of the number of sectors read.
pub const SECTORS_READ_FIELD: usize = 5;

/// The position of the number of sectors written.
pub const SECTORS_WRITTEN_FIELD: usize = 9;

/// The number of fields of a complete line. A line with fewer is passed over.
pub const COMPLETE_FIELDS: usize = 14;

/// The bytes that one block device or partition has read and written since
/// boot.
#[derive(Debug, PartialEq, Eq)]
pub struct IoStats {
    pub device_name: String,
    pub bytes_read: i64,
    pub bytes_wrtn: i64,
}

/// What an [`IoStats`] holds, as mathematical values.
pub struct IoStatsView {
    pub device_name: Seq<char>,
    pub bytes_read: int,
    pub bytes_wrtn: int,
}

impl IoStatsView {
    /// Whether these can be the counters of a device: neither count is
    /// negative. The counters that the table yields are.
    pub open spec fn is_valid(self) -> bool {
        self.bytes_read >= 0 && self.bytes_wrtn >= 0
    }
}

impl View for IoStats {
    type V = IoStatsView;

    open spec fn view(&self) -> IoStatsView {
        IoStatsView {
            device_name: self.device_name@,
            bytes_read: self.bytes_read as int,
            bytes_wrtn: self.bytes_wrtn as int,
        }
    }
}

impl Clone for IoStats {
    fn clone(&self) -> (copy: Self)
        ensures
            copy == *self,
    {
        IoStats {
            device_name: self.device_name.clone(),
            bytes_read: self.bytes_read,
            bytes_wrtn: self.bytes_wrtn,
        }
    }
}

impl DeepView for IoStats {
    type V = IoStatsView;

    open spec fn deep_view(&self) -> IoStatsView {
        self@
    }
}

/// Why a complete line yields no counters.
#[derive(Clone, Copy, Debug, PartialEq, Eq, Structural)]
pub enum Fault {
    /// The sectors-read field is no count of sectors: it is no integer, it is
    /// negative, or its byte count is out of range.
    SectorsRead,
    /// The sectors-written field is no count of sectors.
    SectorsWritten,
    /// The device's name holds a NUL character, so no path can name it.
    DeviceName,
}

/// The byte count that a sector-count field stands for: 512 times the integer
/// that it denotes, where the field denotes one that is not negative and the
/// product is in the range of `i64`.
pub open spec fn byte_count(field: Seq<char>) -> Option<int> {
    match integer_value(field) {
        Some(sectors) => if 0 <= sectors && SECTOR_SIZE * sectors <= i64::MAX {
            Some(SECTOR_SIZE * sectors)
        } else {
            None
        },
        None => None,
    }
}

/// What the fields of one line yield: nothing where the line is incomplete,
/// with fewer than fourteen fields; else the device's name and its two byte
/// counts, or the first of the two sector counts that cannot be read.
pub open spec fn row_stats(f: Seq<Seq<char>>) -> Result<Option<IoStatsView>, Fault> {
    if f.len() < COMPLETE_FIELDS {
        Ok(None)
    } else {
        match byte_count(f[SECTORS_READ_FIELD as int]) {
            None => Err(Fault::SectorsRead),
            Some(read) => match byte_count(f[SECTORS_WRITTEN_FIELD as int]) {
                None => Err(Fault::SectorsWritten),
                Some(written) => Ok(
                    Some(
                        IoStatsView {
                            device_name: f[NAME_FIELD as int],
                            bytes_read: read,
                            bytes_wrtn: written,
                        },
                    ),
                ),
            },
        }
    }
}

/// What one line of the table yields.
pub open spec fn line_stats(line: Seq<char>) -> Result<Option<IoStatsView>, Fault> {
    row_stats(fields(line))
}

/// Whether `line` is well formed: it is complete, and both of its sector
/// counts can be read.
pub open spec fn is_well_formed(line: Seq<char>) -> bool {
    let f = fields(line);
    &&& f.len() >= COMPLETE_FIELDS
    &&& byte_count(f[SECTORS_READ_FIELD as int]) is Some
    &&& byte_count(f[SECTORS_WRITTEN_FIELD as int]) is Some
}

/// A line with fewer than fourteen fields yields nothing, and no error.
pub proof fn lemma_incomplete_line_skipped(line: Seq<char>)
    requires
        fields(line).len() < 14,
    ensures
        line_stats(line) == Ok::<Option<IoStatsView>, Fault>(None),
{
}

/// A well-formed line yields the counters of one device: its name is the
/// third field, the bytes read are 512 times the integer in the sixth field,
/// and the bytes written are 512 times the integer in the tenth.
pub proof fn lemma_well_formed_line_stats(line: Seq<char>)
    requires
        is_well_formed(line),
    ensures
        line_stats(line) matches Ok(Some(stats)) && {
            &&& stats.device_name == fields(line)[2]
            &&& integer_value(fields(line)[5]) matches Some(sectors) && stats.bytes_read == 512
                * sectors
            &&& integer_value(fields(line)[9]) matches Some(sectors) && stats.bytes_wrtn == 512
                * sectors
        },
{
}

/// The counters that a line yields are valid.
pub proof fn lemma_line_stats_valid(line: Seq<char>)
    ensures
        line_stats(line) matches Ok(Some(stats)) ==> stats.is_valid(),
{
}

/// On a well-formed line whose seventh field denotes the same integer as its
/// tenth, the bytes written are 512 times the integer in the seventh field.
pub proof fn lemma_written_where_seventh_agrees(line: Seq<char>)
    requires
        is_well_formed(line),
        integer_value(fields(line)[6]) == integer_value(fields(line)[9]),
    ensures
        line_stats(line) matches Ok(Some(stats)) && {
            &&& stats.device_name == fields(line)[2]
            &&& integer_value(fields(line)[5]) matches Some(sectors) && stats.bytes_read == 512
                * sectors
            &&& integer_value(fields(line)[6]) matches Some(sectors) && stats.bytes_wrtn == 512
                * sectors
        },
{
    lemma_well_formed_line_stats(line);
}

/// The mathematical value of what decoding a line returned.
pub open spec fn outcome_view(r: Result<Option<IoStats>, Fault>) -> Result<
    Option<IoStatsView>,
    Fault,
> {
    match r {
        Ok(Some(stats)) => Ok(Some(stats@)),
        Ok(None) => Ok(None),
        Err(fault) => Err(fault),
    }
}

/// Reads a sector-count field as a number of bytes.
pub fn parse_byte_count(field: &str) -> (r: Option<i64>)
    ensures
        match r {
            Some(bytes) => byte_count(field@) == Some(bytes as int),
            None => byte_count(field@) is None,
        },
{
    match parse_i64(field) {
        Some(sectors) => if sectors < 0 {
            None
        } else {
            sectors.checked_mul(SECTOR_SIZE)
        },
        None => None,
    }
}

/// Decodes the fields of one line of the table.
pub fn decode_row(f: &Vec<String>) -> (r: Result<Option<IoStats>, Fault>)
    ensures
        outcome_view(r) == row_stats(f.deep_view()),
        r matches Ok(Some(stats)) ==> stats@.is_valid(),
{
    if f.len() < COMPLETE_FIELDS {
        return Ok(None);
    }
    let bytes_read: i64 = match parse_byte_count(f[SECTORS_READ_FIELD].as_str()) {
        Some(bytes) => bytes,
        None => { return Err(Fault::SectorsRead); },
    };
    let bytes_wrtn: i64 = match parse_byte_count(f[SECTORS_WRITTEN_FIELD].as_str()) {
        Some(bytes) => bytes,
        None => { return Err(Fault::SectorsWritten); },
    };
    Ok(Some(IoStats { device_name: f[NAME_FIELD].clone(), bytes_read, bytes_wrtn }))
}

/// Decodes one line of the table.
pub fn parse_line(line: &str) -> (r: Result<Option<IoStats>, Fault>)
    ensures
        outcome_view(r) == line_stats(line@),
        r matches Ok(Some(stats)) ==> stats@.is_valid(),
{
    let f = split_fields(line);
    decode_row(&f)
}

} // verus!
